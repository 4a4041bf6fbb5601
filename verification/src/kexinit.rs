//! KEXINIT message builder and parser.
//!
//! A KEXINIT payload is: the message type byte 20, a 16-byte random cookie,
//! exactly ten name lists in a fixed order, a `first_kex_packet_follows`
//! boolean byte, and a 4-byte reserved field, zero on construction. A
//! non-zero reserved field and a boolean byte other than 0 or 1 are
//! tolerated on parse, for forward compatibility; both policies are
//! deliberate leniencies, not requirements.

use vstd::prelude::*;

use crate::errors::DecodeError;
use crate::names;
use crate::names::{all_names_valid, encoded_name_list, join_names, seq_views, valid_name_list};
use crate::rng;
use crate::wire;

verus! {

/// The KEXINIT message type byte.
pub const MSG_KEXINIT: u8 = 20;

/// The mathematical model of a KEXINIT message.
#[verifier::ext_equal]
pub struct KexInitView {
    pub cookie: Seq<u8>,
    pub kex_algorithms: Seq<Seq<u8>>,
    pub server_host_key_algorithms: Seq<Seq<u8>>,
    pub encryption_algorithms_client_to_server: Seq<Seq<u8>>,
    pub encryption_algorithms_server_to_client: Seq<Seq<u8>>,
    pub mac_algorithms_client_to_server: Seq<Seq<u8>>,
    pub mac_algorithms_server_to_client: Seq<Seq<u8>>,
    pub compression_algorithms_client_to_server: Seq<Seq<u8>>,
    pub compression_algorithms_server_to_client: Seq<Seq<u8>>,
    pub languages_client_to_server: Seq<Seq<u8>>,
    pub languages_server_to_client: Seq<Seq<u8>>,
    pub first_kex_packet_follows: bool,
    pub reserved: u32,
}

impl KexInitView {
    /// The ten name lists in their fixed wire order.
    pub open spec fn lists(self) -> Seq<Seq<Seq<u8>>> {
        seq![
            self.kex_algorithms,
            self.server_host_key_algorithms,
            self.encryption_algorithms_client_to_server,
            self.encryption_algorithms_server_to_client,
            self.mac_algorithms_client_to_server,
            self.mac_algorithms_server_to_client,
            self.compression_algorithms_client_to_server,
            self.compression_algorithms_server_to_client,
            self.languages_client_to_server,
            self.languages_server_to_client,
        ]
    }

    /// Serializable: a 16-byte cookie and ten encodable lists.
    pub open spec fn wf(self) -> bool {
        &&& self.cookie.len() == 16
        &&& forall|i: int|
            0 <= i < 10 ==> all_names_valid(#[trigger] self.lists()[i]) && join_names(
                self.lists()[i],
            ).len() <= 0xffffffff
    }
}

/// A KEXINIT message. Immutable once built; the raw bytes a peer sent are
/// retained separately by the caller for the later exchange hash.
pub struct KexInitMessage {
    pub cookie: Vec<u8>,
    pub kex_algorithms: Vec<Vec<u8>>,
    pub server_host_key_algorithms: Vec<Vec<u8>>,
    pub encryption_algorithms_client_to_server: Vec<Vec<u8>>,
    pub encryption_algorithms_server_to_client: Vec<Vec<u8>>,
    pub mac_algorithms_client_to_server: Vec<Vec<u8>>,
    pub mac_algorithms_server_to_client: Vec<Vec<u8>>,
    pub compression_algorithms_client_to_server: Vec<Vec<u8>>,
    pub compression_algorithms_server_to_client: Vec<Vec<u8>>,
    pub languages_client_to_server: Vec<Vec<u8>>,
    pub languages_server_to_client: Vec<Vec<u8>>,
    pub first_kex_packet_follows: bool,
    pub reserved: u32,
}

impl View for KexInitMessage {
    type V = KexInitView;

    open spec fn view(&self) -> KexInitView {
        KexInitView {
            cookie: self.cookie@,
            kex_algorithms: seq_views(self.kex_algorithms@),
            server_host_key_algorithms: seq_views(self.server_host_key_algorithms@),
            encryption_algorithms_client_to_server: seq_views(
                self.encryption_algorithms_client_to_server@,
            ),
            encryption_algorithms_server_to_client: seq_views(
                self.encryption_algorithms_server_to_client@,
            ),
            mac_algorithms_client_to_server: seq_views(self.mac_algorithms_client_to_server@),
            mac_algorithms_server_to_client: seq_views(self.mac_algorithms_server_to_client@),
            compression_algorithms_client_to_server: seq_views(
                self.compression_algorithms_client_to_server@,
            ),
            compression_algorithms_server_to_client: seq_views(
                self.compression_algorithms_server_to_client@,
            ),
            languages_client_to_server: seq_views(self.languages_client_to_server@),
            languages_server_to_client: seq_views(self.languages_server_to_client@),
            first_kex_packet_follows: self.first_kex_packet_follows,
            reserved: self.reserved,
        }
    }
}

/// The concatenated encodings of a sequence of name lists.
pub open spec fn lists_bytes(ls: Seq<Seq<Seq<u8>>>) -> Seq<u8>
    decreases ls.len(),
{
    if ls.len() == 0 {
        Seq::empty()
    } else {
        encoded_name_list(ls[0]) + lists_bytes(ls.drop_first())
    }
}

/// The serialized form of a KEXINIT message.
pub open spec fn kexinit_bytes(v: KexInitView) -> Seq<u8> {
    seq![MSG_KEXINIT] + v.cookie + lists_bytes(v.lists()) + seq![
        if v.first_kex_packet_follows {
            1u8
        } else {
            0u8
        },
    ] + wire::spec_u32_to_be_bytes(v.reserved)
}

/// Parse of `count` consecutive name lists from `start`.
pub open spec fn spec_parse_lists(bytes: Seq<u8>, start: int, count: nat) -> Option<
    (Seq<Seq<Seq<u8>>>, int),
>
    decreases count,
{
    if count == 0 {
        Some((Seq::empty(), start))
    } else {
        match names::spec_decode_name_list_at(bytes, start) {
            Some(p) => match spec_parse_lists(bytes, p.1, (count - 1) as nat) {
                Some(q) => Some((seq![p.0] + q.0, q.1)),
                None => None,
            },
            None => None,
        }
    }
}

/// The error of the first list that fails to parse.
pub open spec fn spec_parse_lists_error(bytes: Seq<u8>, start: int, count: nat) -> DecodeError
    decreases count,
{
    if count == 0 {
        DecodeError::TrailingData
    } else {
        match names::spec_decode_name_list_at(bytes, start) {
            Some(p) => spec_parse_lists_error(bytes, p.1, (count - 1) as nat),
            None => names::spec_name_list_error(bytes, start),
        }
    }
}

/// What parsing a KEXINIT payload yields. The whole payload must be
/// consumed; the reserved field is kept as read, zero or not.
pub open spec fn spec_parse_kexinit(bytes: Seq<u8>) -> Option<KexInitView> {
    if bytes.len() < 17 {
        None
    } else if bytes[0] != MSG_KEXINIT {
        None
    } else {
        match spec_parse_lists(bytes, 17, 10) {
            Some(p) => {
                let ls = p.0;
                let end = p.1;
                if end + 5 != bytes.len() {
                    None
                } else {
                    Some(
                        KexInitView {
                            cookie: bytes.subrange(1, 17),
                            kex_algorithms: ls[0],
                            server_host_key_algorithms: ls[1],
                            encryption_algorithms_client_to_server: ls[2],
                            encryption_algorithms_server_to_client: ls[3],
                            mac_algorithms_client_to_server: ls[4],
                            mac_algorithms_server_to_client: ls[5],
                            compression_algorithms_client_to_server: ls[6],
                            compression_algorithms_server_to_client: ls[7],
                            languages_client_to_server: ls[8],
                            languages_server_to_client: ls[9],
                            first_kex_packet_follows: bytes[end] != 0,
                            reserved: wire::spec_u32_from_be_bytes(
                                bytes.subrange(end + 1, end + 5),
                            ),
                        },
                    )
                }
            },
            None => None,
        }
    }
}

/// The error that `parse_kexinit` reports for each rejected payload.
pub open spec fn spec_kexinit_error(bytes: Seq<u8>) -> DecodeError {
    if bytes.len() < 17 {
        DecodeError::ShortInput
    } else if bytes[0] != MSG_KEXINIT {
        DecodeError::WrongMessageType
    } else {
        match spec_parse_lists(bytes, 17, 10) {
            Some(p) => {
                if p.1 + 5 > bytes.len() {
                    DecodeError::ShortInput
                } else {
                    DecodeError::TrailingData
                }
            },
            None => spec_parse_lists_error(bytes, 17, 10),
        }
    }
}

/// The deep views of a vector of name lists.
pub open spec fn seq_views2(l: Seq<Vec<Vec<u8>>>) -> Seq<Seq<Seq<u8>>> {
    l.map_values(|v: Vec<Vec<u8>>| seq_views(v@))
}

/// Parses a KEXINIT payload. The first byte must be 20; the ten name lists
/// and the boolean and reserved fields must consume the payload exactly.
#[verifier::loop_isolation(false)]
pub fn parse_kexinit(bytes: &Vec<u8>) -> (r: Result<KexInitMessage, DecodeError>)
    ensures
        match r {
            Ok(m) => {
                &&& Some(m@) == spec_parse_kexinit(bytes@)
                &&& m@.wf()
            },
            Err(e) => {
                &&& spec_parse_kexinit(bytes@) is None
                &&& e == spec_kexinit_error(bytes@)
            },
        },
{
    let n_total: usize = bytes.len();
    if n_total < 17 {
        return Err(DecodeError::ShortInput);
    }
    if bytes[0] != MSG_KEXINIT {
        return Err(DecodeError::WrongMessageType);
    }
    let mut cookie: Vec<u8> = Vec::new();
    let mut ci: usize = 1;
    while ci < 17
        invariant
            1 <= ci <= 17,
            cookie@ == bytes@.subrange(1, ci as int),
        decreases 17 - ci,
    {
        let b = bytes[ci];
        cookie.push(b);
        proof {
            assert(bytes@.subrange(1, ci as int).push(bytes@[ci as int]) =~= bytes@.subrange(
                1,
                ci + 1,
            ));
        }
        ci += 1;
    }
    let mut acc: Vec<Vec<Vec<u8>>> = Vec::new();
    let mut i: usize = 0;
    let mut cur: usize = 17;
    while i < 10
        invariant
            i <= 10,
            acc@.len() == i,
            17 <= cur <= bytes@.len(),
            forall|j: int|
                0 <= j < i ==> all_names_valid(#[trigger] seq_views2(acc@)[j]) && join_names(
                    seq_views2(acc@)[j],
                ).len() <= 0xffffffff,
            match spec_parse_lists(bytes@, cur as int, (10 - i) as nat) {
                Some(p) => spec_parse_lists(bytes@, 17, 10) == Some(
                    (seq_views2(acc@) + p.0, p.1),
                ),
                None => spec_parse_lists(bytes@, 17, 10) is None,
            },
            spec_parse_lists(bytes@, 17, 10) is None ==> spec_parse_lists_error(bytes@, 17, 10)
                == spec_parse_lists_error(bytes@, cur as int, (10 - i) as nat),
        decreases 10 - i,
    {
        match names::decode_name_list_at(bytes, cur) {
            Ok(p) => {
                let (lvec, end) = p;
                let ghost l = seq_views(lvec@);
                let ghost old_acc = acc@;
                proof {
                    names::lemma_decode_valid(bytes@, cur as int);
                }
                acc.push(lvec);
                proof {
                    assert(seq_views2(acc@) =~= seq_views2(old_acc).push(l));
                    assert forall|j: int| 0 <= j < acc@.len() implies all_names_valid(
                        #[trigger] seq_views2(acc@)[j],
                    ) && join_names(seq_views2(acc@)[j]).len() <= 0xffffffff by {
                        if j < old_acc.len() {
                            assert(seq_views2(acc@)[j] == seq_views2(old_acc)[j]);
                        } else {
                            assert(seq_views2(acc@)[j] == l);
                        }
                    }
                    match spec_parse_lists(bytes@, end as int, (10 - i - 1) as nat) {
                        Some(q) => {
                            assert(spec_parse_lists(bytes@, cur as int, (10 - i) as nat)
                                == Some((seq![l] + q.0, q.1)));
                            assert(seq_views2(old_acc) + (seq![l] + q.0) =~= seq_views2(acc@)
                                + q.0);
                        },
                        None => {
                            assert(spec_parse_lists(bytes@, cur as int, (10 - i) as nat)
                                is None);
                        },
                    }
                }
                cur = end;
                i += 1;
            },
            Err(e) => {
                proof {
                    assert(spec_parse_lists(bytes@, cur as int, (10 - i) as nat) is None);
                    assert(spec_parse_lists(bytes@, 17, 10) is None);
                    assert(spec_parse_lists_error(bytes@, cur as int, (10 - i) as nat)
                        == names::spec_name_list_error(bytes@, cur as int));
                }
                return Err(e);
            },
        }
    }
    proof {
        assert(spec_parse_lists(bytes@, cur as int, 0) == Some(
            (Seq::<Seq<Seq<u8>>>::empty(), cur as int),
        ));
        assert(seq_views2(acc@) + Seq::<Seq<Seq<u8>>>::empty() =~= seq_views2(acc@));
        assert(spec_parse_lists(bytes@, 17, 10) == Some((seq_views2(acc@), cur as int)));
    }
    if n_total - cur < 5 {
        return Err(DecodeError::ShortInput);
    }
    if n_total - cur > 5 {
        return Err(DecodeError::TrailingData);
    }
    let flag_byte: u8 = bytes[cur];
    let reserved: u32 = wire::read_u32_be(bytes, cur + 1);
    let ghost full = acc@;
    let languages_server_to_client = acc.pop().unwrap();
    let languages_client_to_server = acc.pop().unwrap();
    let compression_algorithms_server_to_client = acc.pop().unwrap();
    let compression_algorithms_client_to_server = acc.pop().unwrap();
    let mac_algorithms_server_to_client = acc.pop().unwrap();
    let mac_algorithms_client_to_server = acc.pop().unwrap();
    let encryption_algorithms_server_to_client = acc.pop().unwrap();
    let encryption_algorithms_client_to_server = acc.pop().unwrap();
    let server_host_key_algorithms = acc.pop().unwrap();
    let kex_algorithms = acc.pop().unwrap();
    proof {
        assert(kex_algorithms == full[0]);
        assert(server_host_key_algorithms == full[1]);
        assert(encryption_algorithms_client_to_server == full[2]);
        assert(encryption_algorithms_server_to_client == full[3]);
        assert(mac_algorithms_client_to_server == full[4]);
        assert(mac_algorithms_server_to_client == full[5]);
        assert(compression_algorithms_client_to_server == full[6]);
        assert(compression_algorithms_server_to_client == full[7]);
        assert(languages_client_to_server == full[8]);
        assert(languages_server_to_client == full[9]);
    }
    let m = KexInitMessage {
        cookie,
        kex_algorithms,
        server_host_key_algorithms,
        encryption_algorithms_client_to_server,
        encryption_algorithms_server_to_client,
        mac_algorithms_client_to_server,
        mac_algorithms_server_to_client,
        compression_algorithms_client_to_server,
        compression_algorithms_server_to_client,
        languages_client_to_server,
        languages_server_to_client,
        first_kex_packet_follows: flag_byte != 0,
        reserved,
    };
    proof {
        assert(spec_parse_kexinit(bytes@) is Some);
        let v = spec_parse_kexinit(bytes@).unwrap();
        assert(seq_views2(full)[0] == seq_views(full[0]@));
        assert(seq_views2(full)[1] == seq_views(full[1]@));
        assert(seq_views2(full)[2] == seq_views(full[2]@));
        assert(seq_views2(full)[3] == seq_views(full[3]@));
        assert(seq_views2(full)[4] == seq_views(full[4]@));
        assert(seq_views2(full)[5] == seq_views(full[5]@));
        assert(seq_views2(full)[6] == seq_views(full[6]@));
        assert(seq_views2(full)[7] == seq_views(full[7]@));
        assert(seq_views2(full)[8] == seq_views(full[8]@));
        assert(seq_views2(full)[9] == seq_views(full[9]@));
        assert(m@ =~= v);
    }
    Ok(m)
}

/// Serializes a KEXINIT message into its payload bytes.
#[verifier::rlimit(100)]
pub fn serialize_kexinit(m: &KexInitMessage) -> (r: Vec<u8>)
    requires
        m@.wf(),
    ensures
        r@ == kexinit_bytes(m@),
{
    proof {
        assert(m@.lists()[0] == seq_views(m.kex_algorithms@));
        assert(m@.lists()[1] == seq_views(m.server_host_key_algorithms@));
        assert(m@.lists()[2] == seq_views(m.encryption_algorithms_client_to_server@));
        assert(m@.lists()[3] == seq_views(m.encryption_algorithms_server_to_client@));
        assert(m@.lists()[4] == seq_views(m.mac_algorithms_client_to_server@));
        assert(m@.lists()[5] == seq_views(m.mac_algorithms_server_to_client@));
        assert(m@.lists()[6] == seq_views(m.compression_algorithms_client_to_server@));
        assert(m@.lists()[7] == seq_views(m.compression_algorithms_server_to_client@));
        assert(m@.lists()[8] == seq_views(m.languages_client_to_server@));
        assert(m@.lists()[9] == seq_views(m.languages_server_to_client@));
    }
    let mut out: Vec<u8> = Vec::new();
    out.push(MSG_KEXINIT);
    let mut cookie = names::clone_bytes(&m.cookie);
    out.append(&mut cookie);
    let mut e0 = names::encode_name_list(&m.kex_algorithms);
    out.append(&mut e0);
    let mut e1 = names::encode_name_list(&m.server_host_key_algorithms);
    out.append(&mut e1);
    let mut e2 = names::encode_name_list(&m.encryption_algorithms_client_to_server);
    out.append(&mut e2);
    let mut e3 = names::encode_name_list(&m.encryption_algorithms_server_to_client);
    out.append(&mut e3);
    let mut e4 = names::encode_name_list(&m.mac_algorithms_client_to_server);
    out.append(&mut e4);
    let mut e5 = names::encode_name_list(&m.mac_algorithms_server_to_client);
    out.append(&mut e5);
    let mut e6 = names::encode_name_list(&m.compression_algorithms_client_to_server);
    out.append(&mut e6);
    let mut e7 = names::encode_name_list(&m.compression_algorithms_server_to_client);
    out.append(&mut e7);
    let mut e8 = names::encode_name_list(&m.languages_client_to_server);
    out.append(&mut e8);
    let mut e9 = names::encode_name_list(&m.languages_server_to_client);
    out.append(&mut e9);
    out.push(
        if m.first_kex_packet_follows {
            1
        } else {
            0
        },
    );
    wire::push_u32_be(&mut out, m.reserved);
    proof {
        lemma_lists_bytes_ten(m@);
        assert(out@ =~= kexinit_bytes(m@));
    }
    out
}

/// Parsing consecutive lists out of an embedded `lists_bytes` recovers the
/// lists and consumes exactly its bytes, whatever stands before or after.
proof fn lemma_parse_lists_bytes(bytes: Seq<u8>, start: int, ls: Seq<Seq<Seq<u8>>>)
    requires
        forall|k: int|
            0 <= k < ls.len() ==> all_names_valid(#[trigger] ls[k]) && join_names(
                ls[k],
            ).len() <= 0xffffffff,
        0 <= start,
        start + lists_bytes(ls).len() <= bytes.len(),
        bytes.subrange(start, start + lists_bytes(ls).len() as int) == lists_bytes(ls),
    ensures
        spec_parse_lists(bytes, start, ls.len()) == Some(
            (ls, start + lists_bytes(ls).len() as int),
        ),
    decreases ls.len(),
{
    if ls.len() == 0 {
        assert(ls =~= Seq::<Seq<Seq<u8>>>::empty());
    } else {
        let e0 = encoded_name_list(ls[0]);
        let rest = ls.drop_first();
        assert(lists_bytes(ls) == e0 + lists_bytes(rest));
        assert(bytes.subrange(start, start + e0.len() as int) =~= e0) by {
            assert forall|i: int| 0 <= i < e0.len() implies bytes.subrange(
                start,
                start + e0.len() as int,
            )[i] == e0[i] by {
                assert(bytes.subrange(start, start + lists_bytes(ls).len() as int)[i]
                    == lists_bytes(ls)[i]);
            }
        }
        names::lemma_decode_list_at_prefix(bytes, start, ls[0]);
        let start2 = start + e0.len() as int;
        assert(bytes.subrange(start2, start + lists_bytes(ls).len() as int) =~= lists_bytes(
            rest,
        )) by {
            assert forall|i: int|
                0 <= i < lists_bytes(rest).len() implies bytes.subrange(
                start2,
                start + lists_bytes(ls).len() as int,
            )[i] == lists_bytes(rest)[i] by {
                assert(bytes.subrange(start, start + lists_bytes(ls).len() as int)[e0.len()
                    + i] == lists_bytes(ls)[e0.len() + i]);
            }
        }
        assert forall|k: int|
            0 <= k < rest.len() implies all_names_valid(#[trigger] rest[k]) && join_names(
            rest[k],
        ).len() <= 0xffffffff by {
            assert(rest[k] == ls[k + 1]);
        }
        lemma_parse_lists_bytes(bytes, start2, rest);
        assert(seq![ls[0]] + rest =~= ls);
    }
}

/// `lists_bytes` distributes over concatenation.
proof fn lemma_lists_bytes_append(a: Seq<Seq<Seq<u8>>>, b: Seq<Seq<Seq<u8>>>)
    ensures
        lists_bytes(a + b) == lists_bytes(a) + lists_bytes(b),
    decreases a.len(),
{
    if a.len() == 0 {
        assert(a + b =~= b);
        assert(lists_bytes(a) =~= Seq::<u8>::empty());
        assert(lists_bytes(a) + lists_bytes(b) =~= lists_bytes(b));
    } else {
        assert((a + b).drop_first() =~= a.drop_first() + b);
        lemma_lists_bytes_append(a.drop_first(), b);
        assert((a + b)[0] == a[0]);
        assert(encoded_name_list(a[0]) + (lists_bytes(a.drop_first()) + lists_bytes(b)) =~= (
        encoded_name_list(a[0]) + lists_bytes(a.drop_first())) + lists_bytes(b));
    }
}

/// The encodings of the front five lists, written out flat.
#[verifier::rlimit(100)]
proof fn lemma_lists_bytes_front(v: KexInitView)
    ensures
        lists_bytes(
            seq![
                v.kex_algorithms,
                v.server_host_key_algorithms,
                v.encryption_algorithms_client_to_server,
                v.encryption_algorithms_server_to_client,
                v.mac_algorithms_client_to_server,
            ],
        ) == encoded_name_list(v.kex_algorithms) + encoded_name_list(
            v.server_host_key_algorithms,
        ) + encoded_name_list(v.encryption_algorithms_client_to_server) + encoded_name_list(
            v.encryption_algorithms_server_to_client,
        ) + encoded_name_list(v.mac_algorithms_client_to_server),
{
    let l0 = v.kex_algorithms;
    let l1 = v.server_host_key_algorithms;
    let l2 = v.encryption_algorithms_client_to_server;
    let l3 = v.encryption_algorithms_server_to_client;
    let l4 = v.mac_algorithms_client_to_server;
    let e0 = encoded_name_list(l0);
    let e1 = encoded_name_list(l1);
    let e2 = encoded_name_list(l2);
    let e3 = encoded_name_list(l3);
    let e4 = encoded_name_list(l4);
    assert(seq![l0, l1, l2, l3, l4].drop_first() =~= seq![l1, l2, l3, l4]);
    assert(seq![l1, l2, l3, l4].drop_first() =~= seq![l2, l3, l4]);
    assert(seq![l2, l3, l4].drop_first() =~= seq![l3, l4]);
    assert(seq![l3, l4].drop_first() =~= seq![l4]);
    assert(seq![l4].drop_first() =~= Seq::<Seq<Seq<u8>>>::empty());
    assert(lists_bytes(Seq::<Seq<Seq<u8>>>::empty()) =~= Seq::<u8>::empty());
    assert(lists_bytes(seq![l4]) =~= e4);
    assert(lists_bytes(seq![l3, l4]) =~= e3 + e4);
    assert(lists_bytes(seq![l2, l3, l4]) =~= e2 + e3 + e4);
    assert(lists_bytes(seq![l1, l2, l3, l4]) =~= e1 + e2 + e3 + e4);
    assert(lists_bytes(seq![l0, l1, l2, l3, l4]) =~= e0 + e1 + e2 + e3 + e4);
}

/// The encodings of the back five lists, written out flat.
#[verifier::rlimit(100)]
proof fn lemma_lists_bytes_back(v: KexInitView)
    ensures
        lists_bytes(
            seq![
                v.mac_algorithms_server_to_client,
                v.compression_algorithms_client_to_server,
                v.compression_algorithms_server_to_client,
                v.languages_client_to_server,
                v.languages_server_to_client,
            ],
        ) == encoded_name_list(v.mac_algorithms_server_to_client) + encoded_name_list(
            v.compression_algorithms_client_to_server,
        ) + encoded_name_list(v.compression_algorithms_server_to_client) + encoded_name_list(
            v.languages_client_to_server,
        ) + encoded_name_list(v.languages_server_to_client),
{
    let l5 = v.mac_algorithms_server_to_client;
    let l6 = v.compression_algorithms_client_to_server;
    let l7 = v.compression_algorithms_server_to_client;
    let l8 = v.languages_client_to_server;
    let l9 = v.languages_server_to_client;
    let e5 = encoded_name_list(l5);
    let e6 = encoded_name_list(l6);
    let e7 = encoded_name_list(l7);
    let e8 = encoded_name_list(l8);
    let e9 = encoded_name_list(l9);
    assert(seq![l5, l6, l7, l8, l9].drop_first() =~= seq![l6, l7, l8, l9]);
    assert(seq![l6, l7, l8, l9].drop_first() =~= seq![l7, l8, l9]);
    assert(seq![l7, l8, l9].drop_first() =~= seq![l8, l9]);
    assert(seq![l8, l9].drop_first() =~= seq![l9]);
    assert(seq![l9].drop_first() =~= Seq::<Seq<Seq<u8>>>::empty());
    assert(lists_bytes(Seq::<Seq<Seq<u8>>>::empty()) =~= Seq::<u8>::empty());
    assert(lists_bytes(seq![l9]) =~= e9);
    assert(lists_bytes(seq![l8, l9]) =~= e8 + e9);
    assert(lists_bytes(seq![l7, l8, l9]) =~= e7 + e8 + e9);
    assert(lists_bytes(seq![l6, l7, l8, l9]) =~= e6 + e7 + e8 + e9);
    assert(lists_bytes(seq![l5, l6, l7, l8, l9]) =~= e5 + e6 + e7 + e8 + e9);
}

/// The ten encodings of a message's lists, written out flat.
#[verifier::rlimit(100)]
proof fn lemma_lists_bytes_ten(v: KexInitView)
    ensures
        lists_bytes(v.lists()) == encoded_name_list(v.kex_algorithms) + encoded_name_list(
            v.server_host_key_algorithms,
        ) + encoded_name_list(v.encryption_algorithms_client_to_server) + encoded_name_list(
            v.encryption_algorithms_server_to_client,
        ) + encoded_name_list(v.mac_algorithms_client_to_server) + encoded_name_list(
            v.mac_algorithms_server_to_client,
        ) + encoded_name_list(v.compression_algorithms_client_to_server) + encoded_name_list(
            v.compression_algorithms_server_to_client,
        ) + encoded_name_list(v.languages_client_to_server) + encoded_name_list(
            v.languages_server_to_client,
        ),
{
    let l0 = v.kex_algorithms;
    let l1 = v.server_host_key_algorithms;
    let l2 = v.encryption_algorithms_client_to_server;
    let l3 = v.encryption_algorithms_server_to_client;
    let l4 = v.mac_algorithms_client_to_server;
    let l5 = v.mac_algorithms_server_to_client;
    let l6 = v.compression_algorithms_client_to_server;
    let l7 = v.compression_algorithms_server_to_client;
    let l8 = v.languages_client_to_server;
    let l9 = v.languages_server_to_client;
    let front = seq![l0, l1, l2, l3, l4];
    let back = seq![l5, l6, l7, l8, l9];
    lemma_lists_bytes_front(v);
    lemma_lists_bytes_back(v);
    lemma_lists_bytes_append(front, back);
    assert(v.lists() =~= front + back);
    let e0 = encoded_name_list(l0);
    let e1 = encoded_name_list(l1);
    let e2 = encoded_name_list(l2);
    let e3 = encoded_name_list(l3);
    let e4 = encoded_name_list(l4);
    let e5 = encoded_name_list(l5);
    let e6 = encoded_name_list(l6);
    let e7 = encoded_name_list(l7);
    let e8 = encoded_name_list(l8);
    let e9 = encoded_name_list(l9);
    assert((e0 + e1 + e2 + e3 + e4) + (e5 + e6 + e7 + e8 + e9) =~= e0 + e1 + e2 + e3 + e4 + e5
        + e6 + e7 + e8 + e9);
}

/// Round trip: parsing the serialized bytes of a well-formed message yields
/// its model back — type 20, the cookie, all ten lists, the flag, and the
/// reserved field, identically.
#[verifier::rlimit(100)]
pub proof fn lemma_kexinit_round_trip(v: KexInitView)
    requires
        v.wf(),
    ensures
        spec_parse_kexinit(kexinit_bytes(v)) == Some(v),
{
    let b = kexinit_bytes(v);
    let ls = v.lists();
    let lb = lists_bytes(ls);
    let end = 17 + lb.len() as int;
    assert(b.len() == end + 5);
    assert(b[0] == MSG_KEXINIT);
    assert(b.subrange(1, 17) =~= v.cookie);
    assert(b.subrange(17, end) =~= lb);
    lemma_parse_lists_bytes(b, 17, ls);
    assert(spec_parse_lists(b, 17, 10) == Some((ls, end)));
    assert(b[end] == (if v.first_kex_packet_follows {
        1u8
    } else {
        0u8
    }));
    assert(b.subrange(end + 1, end + 5) =~= wire::spec_u32_to_be_bytes(v.reserved));
    wire::lemma_u32_be_bytes_round_trip(v.reserved);
    assert(spec_parse_kexinit(b) is Some);
    assert(spec_parse_kexinit(b).unwrap() =~= v);
}


/// The configuration a local KEXINIT is built from: the ten ordered
/// preference lists and the speculative-packet flag.
pub struct KexConfig {
    pub kex_algorithms: Vec<Vec<u8>>,
    pub server_host_key_algorithms: Vec<Vec<u8>>,
    pub encryption_algorithms_client_to_server: Vec<Vec<u8>>,
    pub encryption_algorithms_server_to_client: Vec<Vec<u8>>,
    pub mac_algorithms_client_to_server: Vec<Vec<u8>>,
    pub mac_algorithms_server_to_client: Vec<Vec<u8>>,
    pub compression_algorithms_client_to_server: Vec<Vec<u8>>,
    pub compression_algorithms_server_to_client: Vec<Vec<u8>>,
    pub languages_client_to_server: Vec<Vec<u8>>,
    pub languages_server_to_client: Vec<Vec<u8>>,
    pub first_kex_packet_follows: bool,
}

impl KexConfig {
    /// Every list is a valid name list whose body length fits 32 bits.
    pub open spec fn wf(&self) -> bool {
        &&& valid_name_list(seq_views(self.kex_algorithms@))
        &&& valid_name_list(seq_views(self.server_host_key_algorithms@))
        &&& valid_name_list(seq_views(self.encryption_algorithms_client_to_server@))
        &&& valid_name_list(seq_views(self.encryption_algorithms_server_to_client@))
        &&& valid_name_list(seq_views(self.mac_algorithms_client_to_server@))
        &&& valid_name_list(seq_views(self.mac_algorithms_server_to_client@))
        &&& valid_name_list(seq_views(self.compression_algorithms_client_to_server@))
        &&& valid_name_list(seq_views(self.compression_algorithms_server_to_client@))
        &&& valid_name_list(seq_views(self.languages_client_to_server@))
        &&& valid_name_list(seq_views(self.languages_server_to_client@))
        &&& join_names(seq_views(self.kex_algorithms@)).len() <= 0xffffffff
        &&& join_names(seq_views(self.server_host_key_algorithms@)).len() <= 0xffffffff
        &&& join_names(seq_views(self.encryption_algorithms_client_to_server@)).len()
            <= 0xffffffff
        &&& join_names(seq_views(self.encryption_algorithms_server_to_client@)).len()
            <= 0xffffffff
        &&& join_names(seq_views(self.mac_algorithms_client_to_server@)).len() <= 0xffffffff
        &&& join_names(seq_views(self.mac_algorithms_server_to_client@)).len() <= 0xffffffff
        &&& join_names(seq_views(self.compression_algorithms_client_to_server@)).len()
            <= 0xffffffff
        &&& join_names(seq_views(self.compression_algorithms_server_to_client@)).len()
            <= 0xffffffff
        &&& join_names(seq_views(self.languages_client_to_server@)).len() <= 0xffffffff
        &&& join_names(seq_views(self.languages_server_to_client@)).len() <= 0xffffffff
    }
}

/// Builds a local KEXINIT: a fresh 16-byte random cookie, the configured
/// lists in order, the configured flag, and reserved zero.
pub fn build_kexinit(config: &KexConfig) -> (m: KexInitMessage)
    requires
        config.wf(),
    ensures
        m@.wf(),
        m@.cookie.len() == 16,
        m@.kex_algorithms == seq_views(config.kex_algorithms@),
        m@.server_host_key_algorithms == seq_views(config.server_host_key_algorithms@),
        m@.encryption_algorithms_client_to_server == seq_views(
            config.encryption_algorithms_client_to_server@,
        ),
        m@.encryption_algorithms_server_to_client == seq_views(
            config.encryption_algorithms_server_to_client@,
        ),
        m@.mac_algorithms_client_to_server == seq_views(config.mac_algorithms_client_to_server@),
        m@.mac_algorithms_server_to_client == seq_views(config.mac_algorithms_server_to_client@),
        m@.compression_algorithms_client_to_server == seq_views(
            config.compression_algorithms_client_to_server@,
        ),
        m@.compression_algorithms_server_to_client == seq_views(
            config.compression_algorithms_server_to_client@,
        ),
        m@.languages_client_to_server == seq_views(config.languages_client_to_server@),
        m@.languages_server_to_client == seq_views(config.languages_server_to_client@),
        m@.first_kex_packet_follows == config.first_kex_packet_follows,
        m@.reserved == 0,
{
    let cookie = rng::fresh_cookie();
    KexInitMessage {
        cookie,
        kex_algorithms: names::clone_names(&config.kex_algorithms),
        server_host_key_algorithms: names::clone_names(&config.server_host_key_algorithms),
        encryption_algorithms_client_to_server: names::clone_names(
            &config.encryption_algorithms_client_to_server,
        ),
        encryption_algorithms_server_to_client: names::clone_names(
            &config.encryption_algorithms_server_to_client,
        ),
        mac_algorithms_client_to_server: names::clone_names(
            &config.mac_algorithms_client_to_server,
        ),
        mac_algorithms_server_to_client: names::clone_names(
            &config.mac_algorithms_server_to_client,
        ),
        compression_algorithms_client_to_server: names::clone_names(
            &config.compression_algorithms_client_to_server,
        ),
        compression_algorithms_server_to_client: names::clone_names(
            &config.compression_algorithms_server_to_client,
        ),
        languages_client_to_server: names::clone_names(&config.languages_client_to_server),
        languages_server_to_client: names::clone_names(&config.languages_server_to_client),
        first_kex_packet_follows: config.first_kex_packet_follows,
        reserved: 0,
    }
}

} // verus!
