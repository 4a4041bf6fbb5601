//! Algorithm negotiation.
//!
//! Each category is negotiated independently: the client's preference list
//! is walked in order, and the first name that the server's list also holds
//! (at any position) is chosen. A miss in one of the eight mandatory
//! categories is fatal; the two language categories are advisory only.

use vstd::prelude::*;

use crate::errors::AlgorithmCategory;
use crate::errors::NegotiationError;
use crate::kexinit::KexInitMessage;
use crate::kexinit::KexInitView;
use crate::names;
use crate::names::seq_views;

verus! {

/// Whether `name` occurs anywhere in `l`.
pub open spec fn contains_name(l: Seq<Seq<u8>>, name: Seq<u8>) -> bool {
    exists|i: int| 0 <= i < l.len() && l[i] == name
}

/// The negotiated name of one category: the first client preference that the
/// server also lists; `None` when no client name matches.
pub open spec fn negotiate_one(client: Seq<Seq<u8>>, server: Seq<Seq<u8>>) -> Option<Seq<u8>>
    decreases client.len(),
{
    if client.len() == 0 {
        None
    } else if contains_name(server, client[0]) {
        Some(client[0])
    } else {
        negotiate_one(client.drop_first(), server)
    }
}

/// What the negotiated name is: the client name at the earliest position
/// that the server also lists; no earlier client preference matches. With
/// no match in the whole client list, the category has no negotiated name.
pub proof fn lemma_negotiate_one_first(client: Seq<Seq<u8>>, server: Seq<Seq<u8>>)
    ensures
        match negotiate_one(client, server) {
            Some(v) => exists|i: int|
                0 <= i < client.len() && #[trigger] client[i] == v && contains_name(server, v)
                    && (forall|j: int| 0 <= j < i ==> !contains_name(server, #[trigger] client[j])),
            None => forall|i: int|
                0 <= i < client.len() ==> !contains_name(server, #[trigger] client[i]),
        },
    decreases client.len(),
{
    if client.len() == 0 {
    } else if contains_name(server, client[0]) {
        assert(client[0] == negotiate_one(client, server).unwrap() && contains_name(
            server,
            client[0],
        ) && (forall|j: int| 0 <= j < 0 ==> !contains_name(server, #[trigger] client[j])));
    } else {
        let rest = client.drop_first();
        lemma_negotiate_one_first(rest, server);
        match negotiate_one(rest, server) {
            Some(v) => {
                let i = choose|i: int|
                    0 <= i < rest.len() && #[trigger] rest[i] == v && contains_name(server, v)
                        && (forall|j: int|
                        0 <= j < i ==> !contains_name(server, #[trigger] rest[j]));
                assert forall|j: int| 0 <= j < i + 1 implies !contains_name(
                    server,
                    #[trigger] client[j],
                ) by {
                    if j > 0 {
                        assert(client[j] == rest[j - 1]);
                    }
                }
                assert(client[i + 1] == v);
            },
            None => {
                assert forall|i: int| 0 <= i < client.len() implies !contains_name(
                    server,
                    #[trigger] client[i],
                ) by {
                    if i > 0 {
                        assert(client[i] == rest[i - 1]);
                    }
                }
            },
        }
    }
}

/// Byte-for-byte equality of two tokens.
pub fn eq_bytes(a: &Vec<u8>, b: &Vec<u8>) -> (r: bool)
    ensures
        r == (a@ == b@),
{
    if a.len() != b.len() {
        return false;
    }
    let mut i: usize = 0;
    while i < a.len()
        invariant
            i <= a@.len(),
            a@.len() == b@.len(),
            forall|j: int| 0 <= j < i ==> a@[j] == b@[j],
        decreases a@.len() - i,
    {
        if a[i] != b[i] {
            return false;
        }
        i += 1;
    }
    proof {
        assert(a@ =~= b@);
    }
    true
}

/// Whether `name` occurs in the list.
pub fn list_contains(l: &Vec<Vec<u8>>, name: &Vec<u8>) -> (r: bool)
    ensures
        r == contains_name(seq_views(l@), name@),
{
    let mut i: usize = 0;
    while i < l.len()
        invariant
            i <= l@.len(),
            forall|j: int| 0 <= j < i ==> seq_views(l@)[j] != name@,
        decreases l@.len() - i,
    {
        if eq_bytes(&l[i], name) {
            proof {
                assert(seq_views(l@)[i as int] == name@);
            }
            return true;
        }
        i += 1;
    }
    false
}

/// Negotiates one category: the first client preference present in the
/// server's list, or `None` when the category has no common name.
#[verifier::loop_isolation(false)]
pub fn negotiate_category(client: &Vec<Vec<u8>>, server: &Vec<Vec<u8>>) -> (r: Option<Vec<u8>>)
    ensures
        match r {
            Some(v) => negotiate_one(seq_views(client@), seq_views(server@)) == Some(v@),
            None => negotiate_one(seq_views(client@), seq_views(server@)) is None,
        },
{
    let ghost c = seq_views(client@);
    let ghost s = seq_views(server@);
    proof {
        assert(c.skip(0) =~= c);
    }
    let mut i: usize = 0;
    while i < client.len()
        invariant
            i <= client@.len(),
            negotiate_one(c, s) == negotiate_one(c.skip(i as int), s),
        decreases client@.len() - i,
    {
        proof {
            assert(c.skip(i as int)[0] == c[i as int]);
        }
        if list_contains(server, &client[i]) {
            proof {
                assert(contains_name(s, c[i as int]));
                assert(negotiate_one(c.skip(i as int), s) == Some(c[i as int]));
            }
            let v = names::clone_bytes(&client[i]);
            return Some(v);
        }
        proof {
            assert(!contains_name(s, c.skip(i as int)[0]));
            assert(c.skip(i as int).drop_first() =~= c.skip(i + 1));
        }
        i += 1;
    }
    proof {
        assert(c.skip(client@.len() as int).len() == 0);
    }
    None
}

/// One chosen name per category, plus both sides' speculative-packet flags,
/// kept as parsed. Never mutated after creation.
#[derive(Debug)]
pub struct NegotiatedAlgorithms {
    pub kex_algorithm: Vec<u8>,
    pub server_host_key_algorithm: Vec<u8>,
    pub encryption_client_to_server: Vec<u8>,
    pub encryption_server_to_client: Vec<u8>,
    pub mac_client_to_server: Vec<u8>,
    pub mac_server_to_client: Vec<u8>,
    pub compression_client_to_server: Vec<u8>,
    pub compression_server_to_client: Vec<u8>,
    pub language_client_to_server: Option<Vec<u8>>,
    pub language_server_to_client: Option<Vec<u8>>,
    pub client_first_kex_packet_follows: bool,
    pub server_first_kex_packet_follows: bool,
}

/// The result is exactly what category-wise negotiation of `c` against `s`
/// yields, the advisory language categories included.
pub open spec fn negotiated_ok(r: NegotiatedAlgorithms, c: KexInitView, s: KexInitView) -> bool {
    &&& negotiate_one(c.kex_algorithms, s.kex_algorithms) == Some(r.kex_algorithm@)
    &&& negotiate_one(c.server_host_key_algorithms, s.server_host_key_algorithms) == Some(
        r.server_host_key_algorithm@,
    )
    &&& negotiate_one(
        c.encryption_algorithms_client_to_server,
        s.encryption_algorithms_client_to_server,
    ) == Some(r.encryption_client_to_server@)
    &&& negotiate_one(
        c.encryption_algorithms_server_to_client,
        s.encryption_algorithms_server_to_client,
    ) == Some(r.encryption_server_to_client@)
    &&& negotiate_one(c.mac_algorithms_client_to_server, s.mac_algorithms_client_to_server)
        == Some(r.mac_client_to_server@)
    &&& negotiate_one(c.mac_algorithms_server_to_client, s.mac_algorithms_server_to_client)
        == Some(r.mac_server_to_client@)
    &&& negotiate_one(
        c.compression_algorithms_client_to_server,
        s.compression_algorithms_client_to_server,
    ) == Some(r.compression_client_to_server@)
    &&& negotiate_one(
        c.compression_algorithms_server_to_client,
        s.compression_algorithms_server_to_client,
    ) == Some(r.compression_server_to_client@)
    &&& (match r.language_client_to_server {
        Some(v) => negotiate_one(c.languages_client_to_server, s.languages_client_to_server)
            == Some(v@),
        None => negotiate_one(c.languages_client_to_server, s.languages_client_to_server)
            is None,
    })
    &&& (match r.language_server_to_client {
        Some(v) => negotiate_one(c.languages_server_to_client, s.languages_server_to_client)
            == Some(v@),
        None => negotiate_one(c.languages_server_to_client, s.languages_server_to_client)
            is None,
    })
    &&& r.client_first_kex_packet_follows == c.first_kex_packet_follows
    &&& r.server_first_kex_packet_follows == s.first_kex_packet_follows
}

/// The first mandatory category with no common algorithm, in the fixed
/// order, or `None` when all eight succeed.
pub open spec fn spec_first_failure(c: KexInitView, s: KexInitView) -> Option<AlgorithmCategory> {
    if negotiate_one(c.kex_algorithms, s.kex_algorithms) is None {
        Some(AlgorithmCategory::KeyExchange)
    } else if negotiate_one(c.server_host_key_algorithms, s.server_host_key_algorithms) is None {
        Some(AlgorithmCategory::ServerHostKey)
    } else if negotiate_one(
        c.encryption_algorithms_client_to_server,
        s.encryption_algorithms_client_to_server,
    ) is None {
        Some(AlgorithmCategory::EncryptionClientToServer)
    } else if negotiate_one(
        c.encryption_algorithms_server_to_client,
        s.encryption_algorithms_server_to_client,
    ) is None {
        Some(AlgorithmCategory::EncryptionServerToClient)
    } else if negotiate_one(c.mac_algorithms_client_to_server, s.mac_algorithms_client_to_server)
        is None {
        Some(AlgorithmCategory::MacClientToServer)
    } else if negotiate_one(c.mac_algorithms_server_to_client, s.mac_algorithms_server_to_client)
        is None {
        Some(AlgorithmCategory::MacServerToClient)
    } else if negotiate_one(
        c.compression_algorithms_client_to_server,
        s.compression_algorithms_client_to_server,
    ) is None {
        Some(AlgorithmCategory::CompressionClientToServer)
    } else if negotiate_one(
        c.compression_algorithms_server_to_client,
        s.compression_algorithms_server_to_client,
    ) is None {
        Some(AlgorithmCategory::CompressionServerToClient)
    } else {
        None
    }
}

/// Negotiates all categories of a client and a server KEXINIT. Succeeds if
/// and only if every mandatory category has a common algorithm; the error
/// names the first category that has none.
pub fn negotiate(client: &KexInitMessage, server: &KexInitMessage) -> (r: Result<
    NegotiatedAlgorithms,
    NegotiationError,
>)
    ensures
        match r {
            Ok(n) => {
                &&& negotiated_ok(n, client@, server@)
                &&& spec_first_failure(client@, server@) is None
            },
            Err(e) => spec_first_failure(client@, server@) == Some(e.category),
        },
{
    let kex_algorithm = match negotiate_category(&client.kex_algorithms, &server.kex_algorithms) {
        Some(v) => v,
        None => {
            return Err(NegotiationError { category: AlgorithmCategory::KeyExchange });
        },
    };
    let server_host_key_algorithm = match negotiate_category(
        &client.server_host_key_algorithms,
        &server.server_host_key_algorithms,
    ) {
        Some(v) => v,
        None => {
            return Err(NegotiationError { category: AlgorithmCategory::ServerHostKey });
        },
    };
    let encryption_client_to_server = match negotiate_category(
        &client.encryption_algorithms_client_to_server,
        &server.encryption_algorithms_client_to_server,
    ) {
        Some(v) => v,
        None => {
            return Err(
                NegotiationError { category: AlgorithmCategory::EncryptionClientToServer },
            );
        },
    };
    let encryption_server_to_client = match negotiate_category(
        &client.encryption_algorithms_server_to_client,
        &server.encryption_algorithms_server_to_client,
    ) {
        Some(v) => v,
        None => {
            return Err(
                NegotiationError { category: AlgorithmCategory::EncryptionServerToClient },
            );
        },
    };
    let mac_client_to_server = match negotiate_category(
        &client.mac_algorithms_client_to_server,
        &server.mac_algorithms_client_to_server,
    ) {
        Some(v) => v,
        None => {
            return Err(NegotiationError { category: AlgorithmCategory::MacClientToServer });
        },
    };
    let mac_server_to_client = match negotiate_category(
        &client.mac_algorithms_server_to_client,
        &server.mac_algorithms_server_to_client,
    ) {
        Some(v) => v,
        None => {
            return Err(NegotiationError { category: AlgorithmCategory::MacServerToClient });
        },
    };
    let compression_client_to_server = match negotiate_category(
        &client.compression_algorithms_client_to_server,
        &server.compression_algorithms_client_to_server,
    ) {
        Some(v) => v,
        None => {
            return Err(
                NegotiationError { category: AlgorithmCategory::CompressionClientToServer },
            );
        },
    };
    let compression_server_to_client = match negotiate_category(
        &client.compression_algorithms_server_to_client,
        &server.compression_algorithms_server_to_client,
    ) {
        Some(v) => v,
        None => {
            return Err(
                NegotiationError { category: AlgorithmCategory::CompressionServerToClient },
            );
        },
    };
    let language_client_to_server = negotiate_category(
        &client.languages_client_to_server,
        &server.languages_client_to_server,
    );
    let language_server_to_client = negotiate_category(
        &client.languages_server_to_client,
        &server.languages_server_to_client,
    );
    Ok(
        NegotiatedAlgorithms {
            kex_algorithm,
            server_host_key_algorithm,
            encryption_client_to_server,
            encryption_server_to_client,
            mac_client_to_server,
            mac_server_to_client,
            compression_client_to_server,
            compression_server_to_client,
            language_client_to_server,
            language_server_to_client,
            client_first_kex_packet_follows: client.first_kex_packet_follows,
            server_first_kex_packet_follows: server.first_kex_packet_follows,
        },
    )
}

} // verus!
