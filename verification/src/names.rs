//! Name-list codec.
//!
//! A name list is an ordered sequence of distinct, non-empty, comma-free
//! printable-ASCII tokens. Its wire form is a 4-byte big-endian length
//! followed by the tokens joined with `,`; the empty list serializes to the
//! four zero bytes alone.

use vstd::prelude::*;
use vstd::string::StrSliceExecFns;
use vstd::string::StringSliceAdditionalSpecFns;

use crate::errors::DecodeError;
use crate::wire;

verus! {

/// The token separator on the wire: `,`.
pub const NAME_SEPARATOR: u8 = 44;

/// Bytes allowed inside a name: printable US-ASCII, comma excluded.
pub open spec fn is_name_byte(b: u8) -> bool {
    0x21 <= b && b <= 0x7e && b != NAME_SEPARATOR
}

/// A valid token: non-empty and made of name bytes only.
pub open spec fn valid_name(s: Seq<u8>) -> bool {
    s.len() > 0 && forall|i: int| 0 <= i < s.len() ==> is_name_byte(#[trigger] s[i])
}

pub open spec fn all_names_valid(l: Seq<Seq<u8>>) -> bool {
    forall|i: int| 0 <= i < l.len() ==> valid_name(#[trigger] l[i])
}

pub open spec fn names_distinct(l: Seq<Seq<u8>>) -> bool {
    forall|i: int, j: int| 0 <= i < j < l.len() ==> l[i] != l[j]
}

/// The name-list invariant: distinct valid tokens, order significant.
pub open spec fn valid_name_list(l: Seq<Seq<u8>>) -> bool {
    all_names_valid(l) && names_distinct(l)
}

/// The views of the tokens of an executable list.
pub open spec fn seq_views(l: Seq<Vec<u8>>) -> Seq<Seq<u8>> {
    l.map_values(|v: Vec<u8>| v@)
}

/// The comma-joined body of a list.
pub open spec fn join_names(l: Seq<Seq<u8>>) -> Seq<u8>
    decreases l.len(),
{
    if l.len() == 0 {
        Seq::empty()
    } else if l.len() == 1 {
        l[0]
    } else {
        l[0] + seq![NAME_SEPARATOR] + join_names(l.drop_first())
    }
}

/// The full wire form: 4-byte big-endian body length, then the joined body.
pub open spec fn encoded_name_list(l: Seq<Seq<u8>>) -> Seq<u8>
    recommends
        join_names(l).len() <= 0xffffffff,
{
    wire::spec_u32_to_be_bytes(join_names(l).len() as u32) + join_names(l)
}

/// Index of the first comma of `s`, or `s.len()` when there is none.
pub open spec fn first_comma(s: Seq<u8>) -> int
    decreases s.len(),
{
    if s.len() == 0 {
        0
    } else if s[0] == NAME_SEPARATOR {
        0
    } else {
        1 + first_comma(s.drop_first())
    }
}

/// Parse of a non-empty body into its tokens; `None` on an empty token or a
/// byte outside the name alphabet.
pub open spec fn parse_names_ne(s: Seq<u8>) -> Option<Seq<Seq<u8>>>
    decreases s.len(),
{
    let k = first_comma(s);
    if !(0 <= k <= s.len()) {
        None
    } else {
        let tok = s.take(k);
        if !valid_name(tok) {
            None
        } else if k == s.len() {
            Some(seq![tok])
        } else {
            match parse_names_ne(s.skip(k + 1)) {
                Some(rest) => Some(seq![tok] + rest),
                None => None,
            }
        }
    }
}

/// Parse of a body; the empty body is the empty list.
pub open spec fn parse_names(s: Seq<u8>) -> Option<Seq<Seq<u8>>> {
    if s.len() == 0 {
        Some(Seq::empty())
    } else {
        parse_names_ne(s)
    }
}

pub proof fn lemma_first_comma_bounds(s: Seq<u8>)
    ensures
        0 <= first_comma(s) <= s.len(),
        forall|i: int| 0 <= i < first_comma(s) ==> #[trigger] s[i] != NAME_SEPARATOR,
        first_comma(s) < s.len() ==> s[first_comma(s)] == NAME_SEPARATOR,
    decreases s.len(),
{
    if s.len() == 0 {
    } else if s[0] == NAME_SEPARATOR {
    } else {
        lemma_first_comma_bounds(s.drop_first());
        assert forall|i: int| 0 <= i < first_comma(s) implies #[trigger] s[i] != NAME_SEPARATOR by {
            if i > 0 {
                assert(s[i] == s.drop_first()[i - 1]);
            }
        }
        if first_comma(s) < s.len() {
            assert(s[first_comma(s)] == s.drop_first()[first_comma(s) - 1]);
        }
    }
}

/// A comma-free stretch followed by a comma or the end pins `first_comma` down.
pub proof fn lemma_first_comma_is(s: Seq<u8>, k: int)
    requires
        0 <= k <= s.len(),
        forall|i: int| 0 <= i < k ==> #[trigger] s[i] != NAME_SEPARATOR,
        k < s.len() ==> s[k] == NAME_SEPARATOR,
    ensures
        first_comma(s) == k,
    decreases s.len(),
{
    if s.len() == 0 {
    } else if s[0] == NAME_SEPARATOR {
        assert(k == 0);
    } else {
        assert(k >= 1);
        let t = s.drop_first();
        assert forall|i: int| 0 <= i < k - 1 implies #[trigger] t[i] != NAME_SEPARATOR by {
            assert(t[i] == s[i + 1]);
        }
        assert(k - 1 < t.len() ==> t[k - 1] == NAME_SEPARATOR);
        lemma_first_comma_is(t, k - 1);
    }
}

pub proof fn lemma_join_nonempty(l: Seq<Seq<u8>>)
    requires
        all_names_valid(l),
        l.len() > 0,
    ensures
        join_names(l).len() > 0,
{
    if l.len() == 1 {
        assert(valid_name(l[0]));
    }
}

/// Appending one token to a list appends `,` and the token to the body.
pub proof fn lemma_join_push(l: Seq<Seq<u8>>, tok: Seq<u8>)
    ensures
        join_names(l.push(tok)) == if l.len() == 0 {
            tok
        } else {
            (join_names(l) + seq![NAME_SEPARATOR] + tok)
        },
    decreases l.len(),
{
    let p = l.push(tok);
    if l.len() == 0 {
        assert(p.len() == 1);
        assert(p[0] == tok);
    } else if l.len() == 1 {
        assert(p.len() == 2);
        assert(p[0] == l[0]);
        assert(p.drop_first() =~= seq![tok]);
        assert(join_names(seq![tok]) == tok);
    } else {
        assert(p.drop_first() =~= l.drop_first().push(tok));
        lemma_join_push(l.drop_first(), tok);
        assert(p[0] == l[0]);
        assert(join_names(p) == l[0] + seq![NAME_SEPARATOR] + (join_names(l.drop_first())
            + seq![NAME_SEPARATOR] + tok));
        assert(l[0] + seq![NAME_SEPARATOR] + (join_names(l.drop_first()) + seq![NAME_SEPARATOR]
            + tok) =~= (l[0] + seq![NAME_SEPARATOR] + join_names(l.drop_first()))
            + seq![NAME_SEPARATOR] + tok);
    }
}

/// Parsing the joined body of a non-empty valid list yields the list itself.
pub proof fn lemma_parse_join(l: Seq<Seq<u8>>)
    requires
        all_names_valid(l),
        l.len() > 0,
    ensures
        parse_names_ne(join_names(l)) == Some(l),
    decreases l.len(),
{
    let s = join_names(l);
    if l.len() == 1 {
        assert(s == l[0]);
        assert(valid_name(l[0]));
        assert forall|i: int| 0 <= i < s.len() implies #[trigger] s[i] != NAME_SEPARATOR by {
            assert(is_name_byte(s[i]));
        }
        lemma_first_comma_is(s, s.len() as int);
        assert(s.take(s.len() as int) =~= s);
        assert(seq![s] =~= l);
    } else {
        let s0 = l[0];
        let rest = l.drop_first();
        assert(valid_name(s0));
        assert(s == s0 + seq![NAME_SEPARATOR] + join_names(rest));
        let k = s0.len() as int;
        assert forall|i: int| 0 <= i < k implies #[trigger] s[i] != NAME_SEPARATOR by {
            assert(s[i] == s0[i]);
            assert(is_name_byte(s0[i]));
        }
        assert(s[k] == NAME_SEPARATOR);
        lemma_first_comma_is(s, k);
        assert(s.take(k) =~= s0);
        assert(k < s.len());
        assert(s.skip(k + 1) =~= join_names(rest));
        lemma_parse_join(rest);
        assert(seq![s0] + rest =~= l);
    }
}

/// A successful parse recovers exactly the tokens whose join is the body.
pub proof fn lemma_parse_ne_join(s: Seq<u8>)
    requires
        parse_names_ne(s) is Some,
    ensures
        all_names_valid(parse_names_ne(s).unwrap()),
        join_names(parse_names_ne(s).unwrap()) == s,
        parse_names_ne(s).unwrap().len() > 0,
    decreases s.len(),
{
    lemma_first_comma_bounds(s);
    let k = first_comma(s);
    let tok = s.take(k);
    if k == s.len() {
        assert(s.take(s.len() as int) =~= s);
        let l = parse_names_ne(s).unwrap();
        assert(l =~= seq![tok]);
        assert(join_names(l) == tok);
    } else {
        let rest_s = s.skip(k + 1);
        lemma_parse_ne_join(rest_s);
        let rest = parse_names_ne(rest_s).unwrap();
        let l = seq![tok] + rest;
        assert(parse_names_ne(s).unwrap() == l);
        assert(l.len() >= 2);
        assert(l[0] == tok);
        assert(l.drop_first() =~= rest);
        assert(join_names(l) == tok + seq![NAME_SEPARATOR] + join_names(rest));
        assert(tok + seq![NAME_SEPARATOR] + rest_s =~= s);
        assert forall|i: int| 0 <= i < l.len() implies valid_name(#[trigger] l[i]) by {
            if i > 0 {
                assert(l[i] == rest[i - 1]);
            }
        }
    }
}

/// Decoding at the start of an embedded encoding yields exactly its list and
/// consumes exactly its bytes, whatever stands before or after it.
pub proof fn lemma_decode_list_at_prefix(bytes: Seq<u8>, start: int, l: Seq<Seq<u8>>)
    requires
        all_names_valid(l),
        join_names(l).len() <= 0xffffffff,
        0 <= start,
        start + encoded_name_list(l).len() <= bytes.len(),
        bytes.subrange(start, start + encoded_name_list(l).len() as int) == encoded_name_list(l),
    ensures
        spec_decode_name_list_at(bytes, start) == Some(
            (l, start + encoded_name_list(l).len() as int),
        ),
{
    let e = encoded_name_list(l);
    let j = join_names(l);
    let len32 = j.len() as u32;
    wire::lemma_u32_be_bytes_round_trip(len32);
    assert(bytes.subrange(start, start + 4) =~= wire::spec_u32_to_be_bytes(len32)) by {
        assert forall|i: int| 0 <= i < 4 implies bytes.subrange(start, start + 4)[i] == e[i] by {
            assert(bytes.subrange(start, start + e.len() as int)[i] == e[i]);
        }
    }
    let n = wire::spec_u32_from_be_bytes(bytes.subrange(start, start + 4)) as int;
    assert(n == j.len());
    assert(bytes.subrange(start + 4, start + 4 + n) =~= j) by {
        assert forall|i: int| 0 <= i < n implies bytes.subrange(start + 4, start + 4 + n)[i]
            == j[i] by {
            assert(bytes.subrange(start, start + e.len() as int)[4 + i] == e[4 + i]);
        }
    }
    if l.len() == 0 {
        assert(parse_names(j) == Some(l));
    } else {
        lemma_join_nonempty(l);
        lemma_parse_join(l);
    }
}

/// A decoded list is valid and its joined body fits a 32-bit length field.
pub proof fn lemma_decode_valid(bytes: Seq<u8>, start: int)
    requires
        spec_decode_name_list_at(bytes, start) is Some,
    ensures
        all_names_valid(spec_decode_name_list_at(bytes, start).unwrap().0),
        join_names(spec_decode_name_list_at(bytes, start).unwrap().0).len() <= 0xffffffff,
{
    let n = wire::spec_u32_from_be_bytes(bytes.subrange(start, start + 4)) as int;
    let body = bytes.subrange(start + 4, start + 4 + n);
    let l = spec_decode_name_list_at(bytes, start).unwrap().0;
    if body.len() == 0 {
        assert(l =~~= Seq::<Seq<u8>>::empty());
        assert(join_names(l).len() == 0);
    } else {
        lemma_parse_ne_join(body);
    }
}

/// What decoding at `start` yields: the token list and the position after it.
pub open spec fn spec_decode_name_list_at(bytes: Seq<u8>, start: int) -> Option<
    (Seq<Seq<u8>>, int),
> {
    if !(0 <= start && start + 4 <= bytes.len()) {
        None
    } else {
        let n = wire::spec_u32_from_be_bytes(bytes.subrange(start, start + 4)) as int;
        if start + 4 + n > bytes.len() {
            None
        } else {
            match parse_names(bytes.subrange(start + 4, start + 4 + n)) {
                Some(l) => Some((l, start + 4 + n)),
                None => None,
            }
        }
    }
}

/// Round trip: decoding an encoded valid name list yields the list back,
/// consuming exactly the encoding.
pub proof fn lemma_name_list_round_trip(l: Seq<Seq<u8>>)
    requires
        valid_name_list(l),
        join_names(l).len() <= 0xffffffff,
    ensures
        spec_decode_name_list_at(encoded_name_list(l), 0) == Some(
            (l, encoded_name_list(l).len() as int),
        ),
{
    let e = encoded_name_list(l);
    let j = join_names(l);
    let len32 = j.len() as u32;
    wire::lemma_u32_be_bytes_round_trip(len32);
    assert(e.subrange(0, 4) =~= wire::spec_u32_to_be_bytes(len32));
    let n = wire::spec_u32_from_be_bytes(e.subrange(0, 4)) as int;
    assert(n == j.len());
    assert(e.len() == 4 + j.len());
    assert(e.subrange(4, 4 + n) =~= j);
    if l.len() == 0 {
        assert(j.len() == 0);
        assert(parse_names(j) == Some(l));
    } else {
        lemma_join_nonempty(l);
        lemma_parse_join(l);
    }
}

/// Executable test of `is_name_byte`.
pub fn name_byte(b: u8) -> (r: bool)
    ensures
        r == is_name_byte(b),
{
    0x21 <= b && b <= 0x7e && b != NAME_SEPARATOR
}

/// Encodes a name list: 4-byte big-endian body length, then the comma-joined
/// tokens. Always succeeds for a valid list whose body length fits 32 bits.
pub fn encode_name_list(names: &Vec<Vec<u8>>) -> (r: Vec<u8>)
    requires
        all_names_valid(seq_views(names@)),
        join_names(seq_views(names@)).len() <= 0xffffffff,
    ensures
        r@ == encoded_name_list(seq_views(names@)),
{
    let ghost l = seq_views(names@);
    let mut body: Vec<u8> = Vec::new();
    let mut i: usize = 0;
    while i < names.len()
        invariant
            i <= names@.len(),
            l == seq_views(names@),
            body@ == join_names(l.take(i as int)),
        decreases names@.len() - i,
    {
        if i > 0 {
            body.push(NAME_SEPARATOR);
        }
        let ghost with_sep = body@;
        let tok = &names[i];
        let mut j: usize = 0;
        while j < tok.len()
            invariant
                j <= tok@.len(),
                body@ == with_sep + tok@.take(j as int),
            decreases tok@.len() - j,
        {
            let b = tok[j];
            body.push(b);
            proof {
                assert(tok@.take(j as int).push(tok@[j as int]) =~= tok@.take(j + 1));
                assert(body@ =~= with_sep + tok@.take(j + 1));
            }
            j += 1;
        }
        proof {
            assert(tok@.take(tok@.len() as int) =~= tok@);
            lemma_join_push(l.take(i as int), l[i as int]);
            assert(l.take(i as int).push(l[i as int]) =~= l.take(i + 1));
            assert(tok@ == l[i as int]);
            assert(body@ =~= join_names(l.take(i + 1)));
        }
        i += 1;
    }
    proof {
        assert(l.take(l.len() as int) =~= l);
    }
    let n: usize = body.len();
    let mut r = wire::u32_to_be_bytes(n as u32);
    r.append(&mut body);
    r
}

/// The error that `decode_name_list_at` reports: `ShortInput` when the buffer
/// runs out before the declared body does, `MalformedNameList` otherwise.
pub open spec fn spec_name_list_error(bytes: Seq<u8>, start: int) -> DecodeError {
    if !(start + 4 <= bytes.len()) {
        DecodeError::ShortInput
    } else if start + 4 + (wire::spec_u32_from_be_bytes(bytes.subrange(start, start + 4)) as int)
        > bytes.len() {
        DecodeError::ShortInput
    } else {
        DecodeError::MalformedNameList
    }
}

/// Decodes a name list standing at `start` of `bytes`: reads the 4-byte
/// length, then exactly that many body bytes. Yields the tokens and the
/// position just past the list.
#[verifier::loop_isolation(false)]
pub fn decode_name_list_at(bytes: &Vec<u8>, start: usize) -> (r: Result<
    (Vec<Vec<u8>>, usize),
    DecodeError,
>)
    ensures
        match r {
            Ok(p) => {
                &&& spec_decode_name_list_at(bytes@, start as int) == Some(
                    (seq_views(p.0@), p.1 as int),
                )
                &&& all_names_valid(seq_views(p.0@))
                &&& start + 4 <= p.1 <= bytes@.len()
            },
            Err(e) => {
                &&& spec_decode_name_list_at(bytes@, start as int) is None
                &&& e == spec_name_list_error(bytes@, start as int)
            },
        },
{
    let n_total: usize = bytes.len();
    if start > n_total || n_total - start < 4 {
        return Err(DecodeError::ShortInput);
    }
    let n32: u32 = wire::read_u32_be(bytes, start);
    let n: usize = n32 as usize;
    let body_start: usize = start + 4;
    if n_total - body_start < n {
        return Err(DecodeError::ShortInput);
    }
    let body_end: usize = body_start + n;
    let ghost sub = bytes@.subrange(body_start as int, body_end as int);
    proof {
        assert(n32 == wire::spec_u32_from_be_bytes(
            bytes@.subrange(start as int, start as int + 4),
        ));
        assert(spec_decode_name_list_at(bytes@, start as int) == (match parse_names(sub) {
            Some(l) => Some((l, body_end as int)),
            None => None::<(Seq<Seq<u8>>, int)>,
        }));
        assert(spec_name_list_error(bytes@, start as int) == DecodeError::MalformedNameList);
    }
    if n == 0 {
        let empty: Vec<Vec<u8>> = Vec::new();
        proof {
            assert(sub.len() == 0);
            assert(seq_views(empty@) =~= Seq::<Seq<u8>>::empty());
        }
        return Ok((empty, body_end));
    }
    let mut acc: Vec<Vec<u8>> = Vec::new();
    let mut pos: usize = body_start;
    while pos < body_end
        invariant
            body_start <= pos <= body_end <= bytes@.len(),
            body_start == start + 4,
            body_end == body_start + n,
            n > 0,
            sub == bytes@.subrange(body_start as int, body_end as int),
            all_names_valid(seq_views(acc@)),
            pos == body_end ==> parse_names_ne(sub) == Some(seq_views(acc@)),
            pos < body_end ==> (match parse_names_ne(
                bytes@.subrange(pos as int, body_end as int),
            ) {
                Some(rest) => parse_names_ne(sub) == Some(seq_views(acc@) + rest),
                None => parse_names_ne(sub) is None,
            }),
        decreases body_end - pos,
    {
        let ghost suf = bytes@.subrange(pos as int, body_end as int);
        proof {
            lemma_first_comma_bounds(suf);
        }
        let mut tok: Vec<u8> = Vec::new();
        let mut k: usize = pos;
        while k < body_end && name_byte(bytes[k])
            invariant
                pos <= k <= body_end <= bytes@.len(),
                tok@ == bytes@.subrange(pos as int, k as int),
                forall|i: int| pos <= i < k ==> is_name_byte(#[trigger] bytes@[i]),
            decreases body_end - k,
        {
            let b = bytes[k];
            tok.push(b);
            proof {
                assert(bytes@.subrange(pos as int, k as int).push(bytes@[k as int])
                    =~= bytes@.subrange(pos as int, k + 1));
            }
            k += 1;
        }
        let ghost fc = first_comma(suf);
        proof {
            assert(suf.len() == body_end - pos);
            assert forall|i: int| 0 <= i < suf.len() implies suf[i] == bytes@[pos + i] by {}
        }
        if k < body_end && bytes[k] == NAME_SEPARATOR {
            proof {
                assert forall|i: int| 0 <= i < k - pos implies #[trigger] suf[i]
                    != NAME_SEPARATOR by {
                    assert(is_name_byte(bytes@[pos + i]));
                }
                lemma_first_comma_is(suf, k - pos);
                assert(suf.take(k - pos) =~= tok@);
            }
            if tok.len() == 0 {
                proof {
                    assert(!valid_name(suf.take(fc)));
                    assert(parse_names_ne(suf) is None);
                }
                return Err(DecodeError::MalformedNameList);
            }
            proof {
                assert(valid_name(tok@)) by {
                    assert forall|i: int| 0 <= i < tok@.len() implies is_name_byte(
                        #[trigger] tok@[i],
                    ) by {
                        assert(tok@[i] == bytes@[pos + i]);
                    }
                }
                assert(suf.skip(k - pos + 1) =~= bytes@.subrange(k + 1, body_end as int));
            }
            let ghost old_acc = acc@;
            acc.push(tok);
            let new_pos: usize = k + 1;
            proof {
                assert(seq_views(acc@) =~= seq_views(old_acc).push(bytes@.subrange(
                    pos as int,
                    k as int,
                )));
                if new_pos == body_end {
                    let e = bytes@.subrange(new_pos as int, body_end as int);
                    assert(e.len() == 0);
                    assert(!valid_name(e.take(first_comma(e))));
                    assert(parse_names_ne(e) is None);
                    assert(parse_names_ne(suf) is None);
                }
            }
            if new_pos == body_end {
                return Err(DecodeError::MalformedNameList);
            }
            proof {
                let rest_bytes = bytes@.subrange(new_pos as int, body_end as int);
                match parse_names_ne(rest_bytes) {
                    Some(rest) => {
                        assert(parse_names_ne(suf) == Some(seq![tok@] + rest));
                        assert(seq_views(old_acc) + (seq![tok@] + rest) =~= seq_views(acc@)
                            + rest);
                    },
                    None => {
                        assert(parse_names_ne(suf) is None);
                    },
                }
            }
            pos = new_pos;
        } else if k < body_end {
            // A byte outside the name alphabet (and not a comma) sits at `k`.
            proof {
                let b = bytes@[k as int];
                assert(!is_name_byte(b) && b != NAME_SEPARATOR);
                assert forall|i: int| 0 <= i <= k - pos implies #[trigger] suf[i]
                    != NAME_SEPARATOR by {
                    if i < k - pos {
                        assert(is_name_byte(bytes@[pos + i]));
                    }
                }
                assert(fc > k - pos) by {
                    if fc <= k - pos {
                        assert(suf[fc] == NAME_SEPARATOR);
                    }
                }
                assert(!is_name_byte(suf.take(fc)[k - pos]));
                assert(!valid_name(suf.take(fc)));
                assert(parse_names_ne(suf) is None);
            }
            return Err(DecodeError::MalformedNameList);
        } else {
            // The token runs to the end of the body.
            proof {
                assert(k == body_end);
                assert(pos < body_end);
                assert forall|i: int| 0 <= i < suf.len() implies #[trigger] suf[i]
                    != NAME_SEPARATOR by {
                    assert(is_name_byte(bytes@[pos + i]));
                }
                lemma_first_comma_is(suf, suf.len() as int);
                assert(suf.take(suf.len() as int) =~= suf);
                assert(suf =~= tok@);
                assert(valid_name(tok@)) by {
                    assert forall|i: int| 0 <= i < tok@.len() implies is_name_byte(
                        #[trigger] tok@[i],
                    ) by {
                        assert(tok@[i] == bytes@[pos + i]);
                    }
                }
                assert(parse_names_ne(suf) == Some(seq![tok@]));
            }
            let ghost old_acc = acc@;
            proof {
                assert(seq_views(old_acc) + seq![tok@] =~= seq_views(old_acc).push(tok@));
            }
            acc.push(tok);
            proof {
                assert(seq_views(acc@) =~= seq_views(old_acc).push(bytes@.subrange(
                    pos as int,
                    k as int,
                )));
            }
            pos = body_end;
        }
    }
    proof {
        assert(parse_names(sub) == Some(seq_views(acc@)));
    }
    Ok((acc, body_end))
}

/// A byte-for-byte copy of a token.
pub fn clone_bytes(v: &Vec<u8>) -> (r: Vec<u8>)
    ensures
        r@ == v@,
{
    let mut r: Vec<u8> = Vec::new();
    let mut i: usize = 0;
    while i < v.len()
        invariant
            i <= v@.len(),
            r@ == v@.take(i as int),
        decreases v@.len() - i,
    {
        let b = v[i];
        r.push(b);
        proof {
            assert(v@.take(i as int).push(v@[i as int]) =~= v@.take(i + 1));
        }
        i += 1;
    }
    proof {
        assert(v@.take(v@.len() as int) =~= v@);
    }
    r
}

/// A copy of a name list, token for token.
pub fn clone_names(l: &Vec<Vec<u8>>) -> (r: Vec<Vec<u8>>)
    ensures
        seq_views(r@) == seq_views(l@),
{
    let mut r: Vec<Vec<u8>> = Vec::new();
    let mut i: usize = 0;
    while i < l.len()
        invariant
            i <= l@.len(),
            seq_views(r@) == seq_views(l@).take(i as int),
        decreases l@.len() - i,
    {
        let ghost old_r = r@;
        let tok = clone_bytes(&l[i]);
        r.push(tok);
        proof {
            assert(seq_views(old_r).len() == old_r.len());
            assert(old_r.len() == i);
            assert(r@ == old_r.push(tok));
            assert forall|j: int| 0 <= j < r@.len() implies seq_views(r@)[j] == seq_views(
                l@,
            ).take(i + 1)[j] by {
                if j < i {
                    assert(r@[j] == old_r[j]);
                    assert(seq_views(old_r)[j] == seq_views(l@).take(i as int)[j]);
                }
            }
            assert(seq_views(r@) =~= seq_views(l@).take(i + 1));
        }
        i += 1;
    }
    proof {
        assert(seq_views(l@).take(l@.len() as int) =~= seq_views(l@));
    }
    r
}

/// The raw form of an already comma-joined list string: its 4-byte big-endian
/// byte length, then its bytes.
pub fn to_name_list(value: &str) -> (r: Vec<u8>)
    requires
        value.spec_bytes().len() <= 0xffffffff,
    ensures
        r@ == wire::spec_u32_to_be_bytes(value.spec_bytes().len() as u32) + value.spec_bytes(),
{
    let mut body: Vec<u8> = value.as_bytes_vec();
    let n: usize = body.len();
    let mut r = wire::u32_to_be_bytes(n as u32);
    r.append(&mut body);
    r
}

} // verus!
