//! Identification-string exchange.
//!
//! A peer's line has the form `SSH-protoversion-softwareversion[ comments]`,
//! terminated by `\n` with an optional preceding `\r`, at most a configured
//! number of bytes including the terminator. Lines not starting with `SSH-`
//! may be ignored as pre-handshake banner text, up to a bounded count that
//! the caller enforces. The parsed fields serve compatibility logging only;
//! they do not affect negotiation.

use vstd::prelude::*;

use crate::errors::ProtocolError;
use crate::wire;

verus! {

pub const CR: u8 = 13;

pub const LF: u8 = 10;

pub const DASH: u8 = 45;

pub const SPACE: u8 = 32;

/// Default bound on an identification line, terminator included.
pub const DEFAULT_MAX_IDENT_LINE: usize = 255;

/// Index of the first occurrence of `b`, or `s.len()` when there is none.
pub open spec fn first_index_of(s: Seq<u8>, b: u8) -> int
    decreases s.len(),
{
    if s.len() == 0 {
        0
    } else if s[0] == b {
        0
    } else {
        1 + first_index_of(s.drop_first(), b)
    }
}

pub proof fn lemma_first_index_bounds(s: Seq<u8>, b: u8)
    ensures
        0 <= first_index_of(s, b) <= s.len(),
        forall|i: int| 0 <= i < first_index_of(s, b) ==> #[trigger] s[i] != b,
        first_index_of(s, b) < s.len() ==> s[first_index_of(s, b)] == b,
    decreases s.len(),
{
    if s.len() == 0 {
    } else if s[0] == b {
    } else {
        lemma_first_index_bounds(s.drop_first(), b);
        assert forall|i: int| 0 <= i < first_index_of(s, b) implies #[trigger] s[i] != b by {
            if i > 0 {
                assert(s[i] == s.drop_first()[i - 1]);
            }
        }
        if first_index_of(s, b) < s.len() {
            assert(s[first_index_of(s, b)] == s.drop_first()[first_index_of(s, b) - 1]);
        }
    }
}

/// A `b`-free stretch followed by `b` or the end pins `first_index_of` down.
pub proof fn lemma_first_index_is(s: Seq<u8>, b: u8, k: int)
    requires
        0 <= k <= s.len(),
        forall|i: int| 0 <= i < k ==> #[trigger] s[i] != b,
        k < s.len() ==> s[k] == b,
    ensures
        first_index_of(s, b) == k,
    decreases s.len(),
{
    if s.len() == 0 {
    } else if s[0] == b {
        assert(k == 0);
    } else {
        assert(k >= 1);
        let t = s.drop_first();
        assert forall|i: int| 0 <= i < k - 1 implies #[trigger] t[i] != b by {
            assert(t[i] == s[i + 1]);
        }
        assert(k - 1 < t.len() ==> t[k - 1] == b);
        lemma_first_index_is(t, b, k - 1);
    }
}

/// The line body: the line with its `\n`, and an optional `\r` before it,
/// taken off; `None` when the line has no terminator.
pub open spec fn spec_strip_line(line: Seq<u8>) -> Option<Seq<u8>> {
    if line.len() >= 2 && line[line.len() - 2] == CR && line[line.len() - 1] == LF {
        Some(line.take(line.len() - 2))
    } else if line.len() >= 1 && line[line.len() - 1] == LF {
        Some(line.take(line.len() - 1))
    } else {
        None
    }
}

pub open spec fn printable(s: Seq<u8>) -> bool {
    forall|i: int| 0 <= i < s.len() ==> 32 <= #[trigger] s[i] <= 126
}

/// Whether a body starts with `SSH-`.
pub open spec fn has_ssh_prefix(s: Seq<u8>) -> bool {
    s.len() >= 4 && s[0] == 83 && s[1] == 83 && s[2] == 72 && s[3] == DASH
}

/// What parsing an identification line yields: protoversion,
/// softwareversion, and the comments if a space separates any.
pub open spec fn spec_parse_ident(line: Seq<u8>, max_len: int) -> Option<
    (Seq<u8>, Seq<u8>, Option<Seq<u8>>),
> {
    if line.len() > max_len {
        None
    } else {
        match spec_strip_line(line) {
            None => None,
            Some(body) => {
                if !printable(body) {
                    None
                } else if !has_ssh_prefix(body) {
                    None
                } else {
                    let rest = body.skip(4);
                    let d = first_index_of(rest, DASH);
                    if d == 0 || d >= rest.len() {
                        None
                    } else {
                        let proto = rest.take(d);
                        let tail = rest.skip(d + 1);
                        let sp = first_index_of(tail, SPACE);
                        if sp == 0 {
                            None
                        } else {
                            let software = tail.take(sp);
                            let comments = if sp < tail.len() {
                                Some(tail.skip(sp + 1))
                            } else {
                                None
                            };
                            Some((proto, software, comments))
                        }
                    }
                }
            },
        }
    }
}

/// The parsed fields of a peer's identification line.
#[derive(Debug, PartialEq, Eq)]
pub struct Identification {
    pub protoversion: Vec<u8>,
    pub softwareversion: Vec<u8>,
    pub comments: Option<Vec<u8>>,
}

/// Whether a raw line opens with `SSH-` — a banner line does not.
pub fn is_version_line(line: &Vec<u8>) -> (r: bool)
    ensures
        r == has_ssh_prefix(line@),
{
    line.len() >= 4 && line[0] == 83 && line[1] == 83 && line[2] == 72 && line[3] == DASH
}

/// Parses a peer's identification line, terminator included. The length is
/// checked against `max_len` before anything else.
#[verifier::loop_isolation(false)]
#[verifier::rlimit(100)]
pub fn parse_identification_line(line: &Vec<u8>, max_len: usize) -> (r: Result<
    Identification,
    ProtocolError,
>)
    ensures
        match r {
            Ok(id) => spec_parse_ident(line@, max_len as int) == Some(
                (
                    id.protoversion@,
                    id.softwareversion@,
                    match id.comments {
                        Some(c) => Some(c@),
                        None => None,
                    },
                ),
            ),
            Err(e) => {
                &&& spec_parse_ident(line@, max_len as int) is None
                &&& e == (if line@.len() > max_len {
                    ProtocolError::LineTooLong
                } else {
                    ProtocolError::MalformedLine
                })
            },
        },
{
    let n: usize = line.len();
    if n > max_len {
        return Err(ProtocolError::LineTooLong);
    }
    let body_len: usize = if n >= 2 && line[n - 2] == CR && line[n - 1] == LF {
        n - 2
    } else if n >= 1 && line[n - 1] == LF {
        n - 1
    } else {
        return Err(ProtocolError::MalformedLine);
    };
    let ghost body = spec_strip_line(line@).unwrap();
    proof {
        assert(body == line@.take(body_len as int));
        assert(body.len() == body_len);
    }
    let mut i: usize = 0;
    while i < body_len
        invariant
            i <= body_len,
            forall|j: int| 0 <= j < i ==> 32 <= #[trigger] body[j] <= 126,
        decreases body_len - i,
    {
        let b = line[i];
        if !(32 <= b && b <= 126) {
            proof {
                assert(body[i as int] == line@[i as int]);
                assert(!printable(body));
            }
            return Err(ProtocolError::MalformedLine);
        }
        proof {
            assert(body[i as int] == line@[i as int]);
        }
        i += 1;
    }
    proof {
        assert(printable(body));
    }
    if !(body_len >= 4 && line[0] == 83 && line[1] == 83 && line[2] == 72 && line[3] == DASH) {
        proof {
            assert(!has_ssh_prefix(body));
        }
        return Err(ProtocolError::MalformedLine);
    }
    let ghost rest = body.skip(4);
    let mut k: usize = 4;
    while k < body_len && line[k] != DASH
        invariant
            4 <= k <= body_len,
            forall|j: int| 4 <= j < k ==> #[trigger] line@[j] != DASH,
        decreases body_len - k,
    {
        k += 1;
    }
    proof {
        assert forall|j: int| 0 <= j < k - 4 implies #[trigger] rest[j] != DASH by {
            assert(rest[j] == line@[j + 4]);
        }
        assert(k - 4 < rest.len() ==> rest[k - 4] == line@[k as int]);
        lemma_first_index_is(rest, DASH, k - 4);
    }
    if k == 4 || k >= body_len {
        return Err(ProtocolError::MalformedLine);
    }
    let proto = wire::copy_range(line, 4, k);
    proof {
        assert(rest.take(k - 4) =~= line@.subrange(4, k as int));
    }
    let ghost tail = rest.skip(k - 4 + 1);
    proof {
        assert(tail =~= line@.subrange(k + 1, body_len as int));
    }
    let mut j: usize = k + 1;
    while j < body_len && line[j] != SPACE
        invariant
            k + 1 <= j <= body_len,
            forall|t: int| k + 1 <= t < j ==> #[trigger] line@[t] != SPACE,
        decreases body_len - j,
    {
        j += 1;
    }
    proof {
        assert forall|t: int| 0 <= t < j - (k + 1) implies #[trigger] tail[t] != SPACE by {
            assert(tail[t] == line@[t + k + 1]);
        }
        assert(j - (k + 1) < tail.len() ==> tail[j - (k + 1)] == line@[j as int]);
        lemma_first_index_is(tail, SPACE, j - (k + 1));
    }
    if j == k + 1 {
        return Err(ProtocolError::MalformedLine);
    }
    let software = wire::copy_range(line, k + 1, j);
    proof {
        assert(tail.take(j - (k + 1)) =~= line@.subrange(k + 1, j as int));
    }
    let comments: Option<Vec<u8>> = if j < body_len {
        let c = wire::copy_range(line, j + 1, body_len);
        proof {
            assert(tail.skip(j - (k + 1) + 1) =~= line@.subrange(j + 1, body_len as int));
        }
        Some(c)
    } else {
        None
    };
    Ok(Identification { protoversion: proto, softwareversion: software, comments })
}

/// The local identification line, `SSH-2.0-<software>\r\n`, from a software
/// name made of printable bytes without spaces.
pub fn build_identification_line(software: &Vec<u8>) -> (r: Vec<u8>)
    ensures
        r@ == seq![83u8, 83u8, 72u8, 45u8, 50u8, 46u8, 48u8, 45u8] + software@ + seq![CR, LF],
{
    let mut r: Vec<u8> = Vec::new();
    r.push(83);
    r.push(83);
    r.push(72);
    r.push(45);
    r.push(50);
    r.push(46);
    r.push(48);
    r.push(45);
    let ghost prefix = r@;
    let mut i: usize = 0;
    while i < software.len()
        invariant
            i <= software@.len(),
            r@ == prefix + software@.take(i as int),
        decreases software@.len() - i,
    {
        let b = software[i];
        r.push(b);
        proof {
            assert(software@.take(i as int).push(software@[i as int]) =~= software@.take(i + 1));
            assert(r@ =~= prefix + software@.take(i + 1));
        }
        i += 1;
    }
    proof {
        assert(software@.take(software@.len() as int) =~= software@);
    }
    r.push(CR);
    r.push(LF);
    proof {
        assert(r@ =~= seq![83u8, 83u8, 72u8, 45u8, 50u8, 46u8, 48u8, 45u8] + software@ + seq![
            CR,
            LF,
        ]);
    }
    r
}

} // verus!
