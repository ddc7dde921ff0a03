//! The url-encoded form grammar the login handler accepts.
//!
//! A body is a `&`-separated list of segments; empty segments are skipped.
//! Each segment splits at its first `=` into a raw key and a raw value (a
//! segment without `=` has an empty value). Keys and values are then
//! percent-decoded: `%XY` with two hex digits stands for the byte it spells,
//! `+` stands for a space, and a `%` not followed by two hex digits makes the
//! whole body malformed. A login form is valid exactly when decoding succeeds
//! and the keys `email` and `password` each occur exactly once.
use vstd::prelude::*;

use crate::http::Error;

verus! {

/// The byte `%`, which opens a two-digit escape.
pub const PERCENT: u8 = 37;

/// The byte `&`, which separates form segments.
pub const AMPERSAND: u8 = 38;

/// The byte `+`, which encodes a space.
pub const PLUS: u8 = 43;

/// The byte `=`, which separates a key from its value.
pub const EQUALS_SIGN: u8 = 61;

/// The space byte that `+` decodes to.
pub const SPACE: u8 = 32;

/// The byte `0`.
pub const DIGIT_ZERO: u8 = 48;

/// The byte `9`.
pub const DIGIT_NINE: u8 = 57;

/// The byte `A`.
pub const UPPER_A: u8 = 65;

/// The byte `F`.
pub const UPPER_F: u8 = 70;

/// The byte `a`.
pub const LOWER_A: u8 = 97;

/// The byte `f`.
pub const LOWER_F: u8 = 102;

/// Whether `b` is an ASCII hex digit.
pub open spec fn is_hex_digit(b: u8) -> bool {
    (DIGIT_ZERO <= b <= DIGIT_NINE) || (UPPER_A <= b <= UPPER_F) || (LOWER_A <= b <= LOWER_F)
}

/// The numeric value of the hex digit `b`.
pub open spec fn hex_value(b: u8) -> u8
    recommends
        is_hex_digit(b),
{
    if DIGIT_ZERO <= b <= DIGIT_NINE {
        (b - DIGIT_ZERO) as u8
    } else if UPPER_A <= b <= UPPER_F {
        (b - UPPER_A + 10) as u8
    } else {
        (b - LOWER_A + 10) as u8
    }
}

/// Percent-decoding of one raw key or value: `%XY` spells a byte, `+` a
/// space; a stray `%` makes the result `None`.
pub open spec fn decoded(s: Seq<u8>) -> Option<Seq<u8>>
    decreases s.len(),
{
    if s.len() == 0 {
        Some(Seq::empty())
    } else if s[0] == PERCENT {
        if s.len() >= 3 && is_hex_digit(s[1]) && is_hex_digit(s[2]) {
            match decoded(s.skip(3)) {
                Some(rest) => Some(seq![(16 * hex_value(s[1]) + hex_value(s[2])) as u8] + rest),
                None => None,
            }
        } else {
            None
        }
    } else {
        let first = if s[0] == PLUS {
            SPACE
        } else {
            s[0]
        };
        match decoded(s.skip(1)) {
            Some(rest) => Some(seq![first] + rest),
            None => None,
        }
    }
}

/// `decoded(rest)` prefixed with already-decoded bytes; the shape a decoding
/// loop maintains.
spec fn decode_join(prefix: Seq<u8>, rest: Seq<u8>) -> Option<Seq<u8>> {
    match decoded(rest) {
        Some(d) => Some(prefix + d),
        None => None,
    }
}

/// The index of the first occurrence of `sep` in `s`, or `s.len()` if there
/// is none.
pub open spec fn first_pos(s: Seq<u8>, sep: u8) -> int
    decreases s.len(),
{
    if s.len() == 0 {
        0
    } else if s[0] == sep {
        0
    } else {
        1 + first_pos(s.skip(1), sep)
    }
}

/// A scan that saw no `sep` before `m` and found `sep` (or the end) at `m`
/// has found `first_pos`.
proof fn lemma_first_pos_of_scan(s: Seq<u8>, sep: u8, m: int)
    requires
        0 <= m <= s.len(),
        forall|k: int| 0 <= k < m ==> s[k] != sep,
        m < s.len() ==> s[m] == sep,
    ensures
        first_pos(s, sep) == m,
    decreases m,
{
    if s.len() == 0 {
    } else if s[0] == sep {
        assert(m == 0);
    } else {
        lemma_first_pos_of_scan(s.skip(1), sep, m - 1);
    }
}

/// The `&`-separated segments of a body, with empty segments skipped.
pub open spec fn segments(s: Seq<u8>) -> Seq<Seq<u8>>
    decreases s.len(),
{
    let p = first_pos(s, AMPERSAND);
    if 0 <= p < s.len() {
        let seg = s.subrange(0, p);
        let rest = segments(s.skip(p + 1));
        if seg.len() == 0 {
            rest
        } else {
            seq![seg] + rest
        }
    } else {
        if s.len() == 0 {
            Seq::empty()
        } else {
            seq![s]
        }
    }
}

/// The raw (undecoded) key of a segment: everything before the first `=`.
pub open spec fn raw_key(seg: Seq<u8>) -> Seq<u8> {
    let p = first_pos(seg, EQUALS_SIGN);
    if 0 <= p <= seg.len() {
        seg.subrange(0, p)
    } else {
        seg
    }
}

/// The raw (undecoded) value of a segment: everything after the first `=`,
/// or empty if the segment has no `=`.
pub open spec fn raw_value(seg: Seq<u8>) -> Seq<u8> {
    let p = first_pos(seg, EQUALS_SIGN);
    if 0 <= p < seg.len() {
        seg.subrange(p + 1, seg.len() as int)
    } else {
        Seq::empty()
    }
}

/// One segment decoded into a (key, value) pair, if both halves decode.
pub open spec fn decoded_pair(seg: Seq<u8>) -> Option<(Seq<u8>, Seq<u8>)> {
    match (decoded(raw_key(seg)), decoded(raw_value(seg))) {
        (Some(k), Some(v)) => Some((k, v)),
        _ => None,
    }
}

/// All segments decoded in order, if every one of them decodes.
pub open spec fn decoded_pairs(segs: Seq<Seq<u8>>) -> Option<Seq<(Seq<u8>, Seq<u8>)>>
    decreases segs.len(),
{
    if segs.len() == 0 {
        Some(Seq::empty())
    } else {
        match (decoded_pair(segs[0]), decoded_pairs(segs.skip(1))) {
            (Some(p), Some(rest)) => Some(seq![p] + rest),
            _ => None,
        }
    }
}

/// `decoded_pairs(segs)` prefixed with already-decoded pairs.
spec fn pairs_join(
    prefix: Seq<(Seq<u8>, Seq<u8>)>,
    segs: Seq<Seq<u8>>,
) -> Option<Seq<(Seq<u8>, Seq<u8>)>> {
    match decoded_pairs(segs) {
        Some(ps) => Some(prefix + ps),
        None => None,
    }
}

/// The (key, value) pairs of a body, or `None` if it is not a well-formed
/// url-encoded form.
pub open spec fn form_pairs(body: Seq<u8>) -> Option<Seq<(Seq<u8>, Seq<u8>)>> {
    decoded_pairs(segments(body))
}

/// The mathematical value of a vector of byte-vector pairs.
spec fn pairs_model(v: Seq<(Vec<u8>, Vec<u8>)>) -> Seq<(Seq<u8>, Seq<u8>)> {
    v.map_values(|p: (Vec<u8>, Vec<u8>)| (p.0@, p.1@))
}

/// How many pairs carry the key `key`.
pub open spec fn count_key(pairs: Seq<(Seq<u8>, Seq<u8>)>, key: Seq<u8>) -> nat
    decreases pairs.len(),
{
    if pairs.len() == 0 {
        0
    } else {
        (if pairs[0].0 == key {
            1nat
        } else {
            0nat
        }) + count_key(pairs.skip(1), key)
    }
}

/// The value of the first pair carrying the key `key`, if any.
pub open spec fn lookup_key(pairs: Seq<(Seq<u8>, Seq<u8>)>, key: Seq<u8>) -> Option<Seq<u8>>
    decreases pairs.len(),
{
    if pairs.len() == 0 {
        None
    } else if pairs[0].0 == key {
        Some(pairs[0].1)
    } else {
        lookup_key(pairs.skip(1), key)
    }
}

/// A key is found exactly when it occurs at least once.
proof fn lemma_lookup_some_iff_count_pos(pairs: Seq<(Seq<u8>, Seq<u8>)>, key: Seq<u8>)
    ensures
        lookup_key(pairs, key) is Some <==> count_key(pairs, key) > 0,
    decreases pairs.len(),
{
    if pairs.len() == 0 {
    } else if pairs[0].0 == key {
    } else {
        lemma_lookup_some_iff_count_pos(pairs.skip(1), key);
    }
}

/// The bytes of the required field name `email`.
pub open spec fn email_key() -> Seq<u8> {
    seq![101u8, 109u8, 97u8, 105u8, 108u8]
}

/// The bytes of the required field name `password`.
pub open spec fn password_key() -> Seq<u8> {
    seq![112u8, 97u8, 115u8, 115u8, 119u8, 111u8, 114u8, 100u8]
}

/// The two required text fields of a login submission, percent-decoded.
#[derive(Debug)]
pub struct FormData {
    pub email: Vec<u8>,
    pub password: Vec<u8>,
}

/// The mathematical value of a `FormData`.
pub struct FormDataModel {
    pub email: Seq<u8>,
    pub password: Seq<u8>,
}

impl View for FormData {
    type V = FormDataModel;

    open spec fn view(&self) -> FormDataModel {
        FormDataModel { email: self.email@, password: self.password@ }
    }
}

/// The login form a body spells, if the body is a well-formed form in which
/// `email` and `password` each occur exactly once.
pub open spec fn login_form(body: Seq<u8>) -> Option<FormDataModel> {
    match form_pairs(body) {
        None => None,
        Some(ps) => if count_key(ps, email_key()) == 1 && count_key(ps, password_key()) == 1 {
            Some(
                FormDataModel {
                    email: lookup_key(ps, email_key()).unwrap(),
                    password: lookup_key(ps, password_key()).unwrap(),
                },
            )
        } else {
            None
        },
    }
}

/// Reads one hex digit, or `None` if `b` is not one.
fn hex_digit(b: u8) -> (r: Option<u8>)
    ensures
        is_hex_digit(b) ==> (r matches Some(v) && v == hex_value(b) && v <= 15),
        !is_hex_digit(b) ==> r is None,
{
    if DIGIT_ZERO <= b && b <= DIGIT_NINE {
        Some(b - DIGIT_ZERO)
    } else if UPPER_A <= b && b <= UPPER_F {
        Some(b - UPPER_A + 10)
    } else if LOWER_A <= b && b <= LOWER_F {
        Some(b - LOWER_A + 10)
    } else {
        None
    }
}

/// Percent-decodes one raw key or value.
fn percent_decode(s: &Vec<u8>) -> (r: Option<Vec<u8>>)
    ensures
        decoded(s@) matches Some(d) ==> r matches Some(v) && v@ == d,
        decoded(s@) is None ==> r is None,
{
    let mut out: Vec<u8> = Vec::new();
    let mut i: usize = 0;
    proof {
        assert(s@.skip(0) =~= s@);
        match decoded(s@) {
            Some(d) => {
                assert(out@ + d =~= d);
            },
            None => {},
        }
    }
    while i < s.len()
        invariant
            i <= s.len(),
            decode_join(out@, s@.skip(i as int)) == decoded(s@),
        decreases s.len() - i,
    {
        let ghost prev = out@;
        let ghost tail = s@.skip(i as int);
        let b = s[i];
        assert(tail[0] == b);
        if b == PERCENT {
            if s.len() - i >= 3 {
                let d1 = hex_digit(s[i + 1]);
                let d2 = hex_digit(s[i + 2]);
                assert(tail[1] == s@[i + 1] && tail[2] == s@[i + 2]);
                match (d1, d2) {
                    (Some(v1), Some(v2)) => {
                        out.push(16 * v1 + v2);
                        i = i + 3;
                        proof {
                            assert(tail.skip(3) =~= s@.skip(i as int));
                            match decoded(s@.skip(i as int)) {
                                Some(rest) => {
                                    assert(decoded(tail) == Some(
                                        seq![(16 * hex_value(tail[1]) + hex_value(tail[2])) as u8]
                                            + rest,
                                    ));
                                    assert(prev + (seq![(16 * v1 + v2) as u8] + rest) =~= out@
                                        + rest);
                                },
                                None => {},
                            }
                        }
                    },
                    _ => {
                        assert(decoded(tail) is None);
                        return None;
                    },
                }
            } else {
                assert(decoded(tail) is None);
                return None;
            }
        } else {
            let c = if b == PLUS {
                SPACE
            } else {
                b
            };
            out.push(c);
            i = i + 1;
            proof {
                assert(tail.skip(1) =~= s@.skip(i as int));
                match decoded(s@.skip(i as int)) {
                    Some(rest) => {
                        assert(prev + (seq![c] + rest) =~= out@ + rest);
                    },
                    None => {},
                }
            }
        }
    }
    assert(s@.skip(i as int) =~= Seq::<u8>::empty());
    assert(out@ + Seq::<u8>::empty() =~= out@);
    Some(out)
}

/// Finds the first occurrence of `sep` at or after `from`, or the end.
fn scan_for(s: &Vec<u8>, from: usize, sep: u8) -> (r: usize)
    requires
        from <= s.len(),
    ensures
        from <= r <= s.len(),
        forall|k: int| from <= k < r ==> s@[k] != sep,
        r < s.len() ==> s@[r as int] == sep,
{
    let mut j: usize = from;
    while j < s.len()
        invariant
            from <= j <= s.len(),
            forall|k: int| from <= k < j ==> s@[k] != sep,
        decreases s.len() - j,
    {
        if s[j] == sep {
            return j;
        }
        j = j + 1;
    }
    j
}

/// Copies `s[from..to]` into a fresh vector.
fn subvec(s: &Vec<u8>, from: usize, to: usize) -> (r: Vec<u8>)
    requires
        from <= to <= s.len(),
    ensures
        r@ == s@.subrange(from as int, to as int),
{
    let mut r: Vec<u8> = Vec::new();
    let mut i: usize = from;
    while i < to
        invariant
            from <= i <= to,
            r@ == s@.subrange(from as int, i as int),
        decreases to - i,
    {
        r.push(s[i]);
        i = i + 1;
        assert(s@.subrange(from as int, i as int) =~= s@.subrange(from as int, i as int - 1).push(
            s@[i as int - 1],
        ));
    }
    r
}

/// Splits a body into its `&`-separated segments, skipping empty ones.
fn split_segments(s: &Vec<u8>) -> (r: Vec<Vec<u8>>)
    ensures
        r@.map_values(|v: Vec<u8>| v@) == segments(s@),
{
    let mut segs: Vec<Vec<u8>> = Vec::new();
    let mut start: usize = 0;
    proof {
        assert(s@.skip(0) =~= s@);
        assert(segs@.map_values(|v: Vec<u8>| v@) + segments(s@) =~= segments(s@));
    }
    loop
        invariant
            start <= s.len(),
            segments(s@) == segs@.map_values(|v: Vec<u8>| v@) + segments(s@.skip(start as int)),
        decreases s.len() - start,
    {
        let ghost tail = s@.skip(start as int);
        let ghost prev_model = segs@.map_values(|v: Vec<u8>| v@);
        let j = scan_for(s, start, AMPERSAND);
        proof {
            assert forall|k: int| 0 <= k < j - start implies tail[k] != AMPERSAND by {
                assert(tail[k] == s@[start + k]);
            }
            lemma_first_pos_of_scan(tail, AMPERSAND, j - start);
        }
        if j > start {
            let seg = subvec(s, start, j);
            assert(seg@ =~= tail.subrange(0, j - start));
            segs.push(seg);
            assert(segs@.map_values(|v: Vec<u8>| v@) =~= prev_model.push(seg@));
        }
        if j == s.len() {
            proof {
                if tail.len() > 0 {
                    if j > start {
                        assert(tail.subrange(0, j - start) =~= tail);
                        assert(prev_model.push(tail) =~= prev_model + seq![tail]);
                    }
                }
                if tail.len() == 0 {
                    assert(prev_model + Seq::<Seq<u8>>::empty() =~= prev_model);
                }
            }
            return segs;
        }
        proof {
            assert(tail.skip(j - start + 1) =~= s@.skip(j as int + 1));
            if j > start {
                let seg = tail.subrange(0, j - start);
                assert(segments(tail) == seq![seg] + segments(s@.skip(j as int + 1)));
                assert(prev_model + (seq![seg] + segments(s@.skip(j as int + 1))) =~= prev_model.push(
                    seg,
                ) + segments(s@.skip(j as int + 1)));
            } else {
                assert(segments(tail) == segments(s@.skip(j as int + 1)));
            }
        }
        start = j + 1;
    }
}

/// Splits a body into segments and decodes each into a (key, value) pair.
fn parse_pairs(body: &Vec<u8>) -> (r: Option<Vec<(Vec<u8>, Vec<u8>)>>)
    ensures
        form_pairs(body@) matches Some(ps) ==> r matches Some(v) && pairs_model(v@) == ps,
        form_pairs(body@) is None ==> r is None,
{
    let segs = split_segments(body);
    let ghost segs_model = segs@.map_values(|v: Vec<u8>| v@);
    let mut pairs: Vec<(Vec<u8>, Vec<u8>)> = Vec::new();
    let mut i: usize = 0;
    proof {
        assert(segs_model.skip(0) =~= segs_model);
        match decoded_pairs(segs_model) {
            Some(ps) => {
                assert(pairs_model(pairs@) + ps =~= ps);
            },
            None => {},
        }
    }
    while i < segs.len()
        invariant
            i <= segs.len(),
            segs_model == segs@.map_values(|v: Vec<u8>| v@),
            decoded_pairs(segs_model) == pairs_join(pairs_model(pairs@), segs_model.skip(i as int)),
        decreases segs.len() - i,
    {
        let ghost prev_model = pairs_model(pairs@);
        let ghost seg_tail = segs_model.skip(i as int);
        let seg = &segs[i];
        assert(seg_tail[0] == seg@);
        let j = scan_for(seg, 0, EQUALS_SIGN);
        proof {
            lemma_first_pos_of_scan(seg@, EQUALS_SIGN, j as int);
        }
        let rawk = subvec(seg, 0, j);
        let rawv = if j == seg.len() {
            Vec::new()
        } else {
            subvec(seg, j + 1, seg.len())
        };
        assert(rawk@ == raw_key(seg@));
        assert(rawv@ == raw_value(seg@));
        let dk = percent_decode(&rawk);
        let dv = percent_decode(&rawv);
        match (dk, dv) {
            (Some(k), Some(v)) => {
                pairs.push((k, v));
                i = i + 1;
                proof {
                    assert(decoded_pair(seg@) == Some((k@, v@)));
                    assert(seg_tail.skip(1) =~= segs_model.skip(i as int));
                    assert(pairs_model(pairs@) =~= prev_model.push((k@, v@)));
                    match decoded_pairs(segs_model.skip(i as int)) {
                        Some(rest) => {
                            assert(decoded_pairs(seg_tail) == Some(seq![(k@, v@)] + rest));
                            assert(prev_model + (seq![(k@, v@)] + rest) =~= pairs_model(pairs@)
                                + rest);
                        },
                        None => {},
                    }
                }
            },
            _ => {
                assert(decoded_pair(seg_tail[0]) is None);
                assert(decoded_pairs(seg_tail) is None);
                return None;
            },
        }
    }
    proof {
        assert(segs_model.skip(i as int) =~= Seq::<Seq<u8>>::empty());
        assert(pairs_model(pairs@) + Seq::<(Seq<u8>, Seq<u8>)>::empty() =~= pairs_model(pairs@));
    }
    Some(pairs)
}

/// Whether two byte vectors hold the same bytes.
fn bytes_eq(a: &Vec<u8>, b: &Vec<u8>) -> (r: bool)
    ensures
        r == (a@ == b@),
{
    if a.len() != b.len() {
        return false;
    }
    let mut i: usize = 0;
    while i < a.len()
        invariant
            i <= a.len(),
            a.len() == b.len(),
            forall|k: int| 0 <= k < i ==> a@[k] == b@[k],
        decreases a.len() - i,
    {
        if a[i] != b[i] {
            return false;
        }
        i = i + 1;
    }
    assert(a@ =~= b@);
    true
}

/// Builds the field name `email` as bytes.
fn email_key_vec() -> (r: Vec<u8>)
    ensures
        r@ == email_key(),
{
    let mut v: Vec<u8> = Vec::new();
    v.push(101u8);
    v.push(109u8);
    v.push(97u8);
    v.push(105u8);
    v.push(108u8);
    assert(v@ =~= email_key());
    v
}

/// Builds the field name `password` as bytes.
fn password_key_vec() -> (r: Vec<u8>)
    ensures
        r@ == password_key(),
{
    let mut v: Vec<u8> = Vec::new();
    v.push(112u8);
    v.push(97u8);
    v.push(115u8);
    v.push(115u8);
    v.push(119u8);
    v.push(111u8);
    v.push(114u8);
    v.push(100u8);
    assert(v@ =~= password_key());
    v
}

/// Counts the pairs whose key is `key`.
fn count_key_exec(pairs: &Vec<(Vec<u8>, Vec<u8>)>, key: &Vec<u8>) -> (r: usize)
    ensures
        r == count_key(pairs_model(pairs@), key@),
{
    let ghost full = pairs_model(pairs@);
    let mut count: usize = 0;
    let mut i: usize = 0;
    proof {
        assert(full.skip(0) =~= full);
    }
    while i < pairs.len()
        invariant
            i <= pairs.len(),
            count <= i,
            full == pairs_model(pairs@),
            count_key(full, key@) == count + count_key(full.skip(i as int), key@),
        decreases pairs.len() - i,
    {
        let ghost tail = full.skip(i as int);
        assert(tail[0] == (pairs@[i as int].0@, pairs@[i as int].1@));
        if bytes_eq(&pairs[i].0, key) {
            count = count + 1;
        }
        i = i + 1;
        assert(tail.skip(1) =~= full.skip(i as int));
    }
    assert(full.skip(i as int) =~= Seq::<(Seq<u8>, Seq<u8>)>::empty());
    count
}

/// Returns the value of the first pair whose key is `key`.
fn lookup_key_exec(pairs: &Vec<(Vec<u8>, Vec<u8>)>, key: &Vec<u8>) -> (r: Option<Vec<u8>>)
    ensures
        lookup_key(pairs_model(pairs@), key@) matches Some(v) ==> r matches Some(rv) && rv@ == v,
        lookup_key(pairs_model(pairs@), key@) is None ==> r is None,
{
    let ghost full = pairs_model(pairs@);
    let mut i: usize = 0;
    proof {
        assert(full.skip(0) =~= full);
    }
    while i < pairs.len()
        invariant
            i <= pairs.len(),
            full == pairs_model(pairs@),
            lookup_key(full, key@) == lookup_key(full.skip(i as int), key@),
        decreases pairs.len() - i,
    {
        let ghost tail = full.skip(i as int);
        assert(tail[0] == (pairs@[i as int].0@, pairs@[i as int].1@));
        if bytes_eq(&pairs[i].0, key) {
            let value = pairs[i].1.clone();
            assert(value@ == pairs@[i as int].1@);
            return Some(value);
        }
        i = i + 1;
        assert(tail.skip(1) =~= full.skip(i as int));
    }
    assert(full.skip(i as int) =~= Seq::<(Seq<u8>, Seq<u8>)>::empty());
    None
}

/// Parses a request body as a login form: the body must be a well-formed
/// url-encoded form in which `email` and `password` each occur exactly once;
/// any other body is a malformed request.
pub fn parse_login_form(body: &Vec<u8>) -> (r: Result<FormData, Error>)
    ensures
        login_form(body@) matches Some(m) ==> r matches Ok(fd) && fd@ == m,
        login_form(body@) is None ==> (r matches Err(e) && e == Error::MalformedRequest),
{
    match parse_pairs(body) {
        None => Err(Error::MalformedRequest),
        Some(pairs) => {
            let ghost ps = pairs_model(pairs@);
            let ekey = email_key_vec();
            let pkey = password_key_vec();
            let email_count = count_key_exec(&pairs, &ekey);
            let password_count = count_key_exec(&pairs, &pkey);
            if email_count == 1 && password_count == 1 {
                proof {
                    lemma_lookup_some_iff_count_pos(ps, email_key());
                    lemma_lookup_some_iff_count_pos(ps, password_key());
                }
                let email = lookup_key_exec(&pairs, &ekey);
                let password = lookup_key_exec(&pairs, &pkey);
                match (email, password) {
                    (Some(e), Some(p)) => Ok(FormData { email: e, password: p }),
                    _ => Err(Error::MalformedRequest),
                }
            } else {
                Err(Error::MalformedRequest)
            }
        },
    }
}

} // verus!
