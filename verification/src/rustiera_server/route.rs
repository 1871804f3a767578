//! Whom a packet belongs to: connection IDs, address validation and the choice between clients.

use crate::rustiera_server::structs::ClientMap;
use crate::text::bytes_eq;
use ring::hmac;
use ring::rand::{SecureRandom, SystemRandom};
use vstd::prelude::*;
use vstd::slice::{slice_subrange, slice_to_vec};
use vstd::utf8::encode_utf8;

verus! {

/// The length of the connection IDs that the server picks, which is the longest that QUIC has.
pub const MAX_CONN_ID_LEN: usize = 20;

/// Calls `fill` of `ring::rand::SystemRandom` on 32 bytes. Nothing is claimed of the bytes, nor
/// of when the system has none to give.
#[verifier::external_body]
fn random_key() -> (key: Option<[u8; 32]>) {
    let mut key = [0u8; 32];
    SystemRandom::new().fill(&mut key).ok()?;
    Some(key)
}

/// The HMAC-SHA256 tag of `data` under `key`, as `ring::hmac::sign` computes it.
pub uninterp spec fn hmac_sha256(key: Seq<u8>, data: Seq<u8>) -> Seq<u8>;

/// Calls `ring::hmac::sign` with a key for HMAC-SHA256. Claimed of it: the tag depends on key
/// and data alone, and has 32 bytes. Data of more than 2^61 - 1 bytes, counting the block of 64
/// that the key takes, panics and is left out; so are keys of more than one block.
#[verifier::external_body]
fn hmac_sha256_tag(key: &[u8], data: &[u8]) -> (tag: Vec<u8>)
    requires
        key@.len() <= 64,
        data@.len() + 64 <= 0x1fff_ffff_ffff_ffff,
    ensures
        tag@ == hmac_sha256(key@, data@),
        tag@.len() == 32,
{
    let key = hmac::Key::new(hmac::HMAC_SHA256, key);
    hmac::sign(&key, data).as_ref().to_vec()
}

/// The secret from which the server derives connection IDs.
pub struct ConnIdSeed {
    pub key: [u8; 32],
}

/// The connection ID that stands for `dcid`: the first bytes of a tag under the secret.
pub open spec fn derived_conn_id(key: Seq<u8>, dcid: Seq<u8>) -> Seq<u8> {
    hmac_sha256(key, dcid).subrange(0, MAX_CONN_ID_LEN as int)
}

impl ConnIdSeed {
    /// A random secret, where the system has randomness to give. Which secret that is, and
    /// whether there is one, rests with the system alone, so nothing is said of either;
    /// `from_random` says what becomes of the bytes that it gives.
    pub fn generate() -> (seed: Option<Self>) {
        Self::from_random(random_key())
    }

    /// The secret made of the random bytes that the system gave, if it gave any.
    pub fn from_random(key: Option<[u8; 32]>) -> (seed: Option<Self>)
        ensures
            seed == match key {
                Some(bytes) => Some(ConnIdSeed { key: bytes }),
                None => None,
            },
    {
        match key {
            Some(key) => Some(ConnIdSeed { key }),
            None => None,
        }
    }

    /// The connection ID that stands for the one that a client picked.
    pub fn conn_id(&self, dcid: &[u8]) -> (id: Vec<u8>)
        requires
            dcid@.len() + 64 <= 0x1fff_ffff_ffff_ffff,
        ensures
            id@ == derived_conn_id(self.key@, dcid@),
            id@.len() == MAX_CONN_ID_LEN,
    {
        let tag = hmac_sha256_tag(self.key.as_slice(), dcid);
        slice_to_vec(slice_subrange(tag.as_slice(), 0, MAX_CONN_ID_LEN))
    }
}

/// What a token starts with for a client at the address `src`.
pub open spec fn token_prefix(src: Seq<u8>) -> Seq<u8> {
    encode_utf8("quiche"@) + src
}

/// The token for a client at the address `src` that picked the connection ID `dcid`.
pub open spec fn retry_token(src: Seq<u8>, dcid: Seq<u8>) -> Seq<u8> {
    token_prefix(src) + dcid
}

/// The connection ID that a token from the address `src` names; none where the token was not
/// made for that address.
pub open spec fn token_odcid(src: Seq<u8>, token: Seq<u8>) -> Option<Seq<u8>> {
    let prefix = token_prefix(src);
    if prefix.is_prefix_of(token) {
        Some(token.subrange(prefix.len() as int, token.len() as int))
    } else {
        None
    }
}

/// Generates a stateless retry token: the static string `"quiche"` followed by the IP address
/// of the client and by the destination connection ID that the client picked first.
///
/// The token carries no cryptographic authentication.
pub fn mint_token(dcid: &[u8], src: &[u8; 4]) -> (token: Vec<u8>)
    ensures
        token@ == retry_token(src@, dcid@),
{
    let mut token: Vec<u8> = Vec::new();
    token.extend_from_slice("quiche".as_bytes());
    token.extend_from_slice(src.as_slice());
    token.extend_from_slice(dcid);
    assert(token@ =~= retry_token(src@, dcid@));
    token
}

/// Takes the connection ID out of a token, if the token was made for this address.
pub fn validate_token<'a>(src: &[u8; 4], token: &'a [u8]) -> (odcid: Option<&'a [u8]>)
    ensures
        match odcid {
            Some(id) => token_odcid(src@, token@) == Some(id@),
            None => token_odcid(src@, token@) is None,
        },
{
    let ghost prefix = token_prefix(src@);
    let name = "quiche".as_bytes();
    let addr = src.as_slice();
    let start: usize = name.len();
    if token.len() < start {
        return None;
    }
    if !bytes_eq(slice_subrange(token, 0, start), name) {
        proof {
            if prefix.is_prefix_of(token@) {
                assert(token@.subrange(0, start as int) =~= name@);
            }
        }
        return None;
    }
    let rest = slice_subrange(token, start, token.len());
    if rest.len() < addr.len() {
        return None;
    }
    if !bytes_eq(slice_subrange(rest, 0, addr.len()), addr) {
        proof {
            if prefix.is_prefix_of(token@) {
                assert forall|i: int| 0 <= i < addr@.len() implies rest@[i] == addr@[i] by {
                    assert(prefix[start + i] == token@[start + i]);
                }
                assert(rest@.subrange(0, addr@.len() as int) =~= addr@);
            }
        }
        return None;
    }
    proof {
        assert(token@.subrange(0, start as int) =~= name@);
        assert(token@.subrange(0, prefix.len() as int) =~= prefix) by {
            assert forall|i: int| 0 <= i < prefix.len() implies token@[i] == prefix[i] by {
                if i < start {
                    assert(token@.subrange(0, start as int)[i] == token@[i]);
                } else {
                    assert(rest@.subrange(0, addr@.len() as int)[i - start] == token@[i]);
                }
            }
        }
    }
    let odcid = slice_subrange(rest, addr.len(), rest.len());
    assert(odcid@ =~= token@.subrange(prefix.len() as int, token@.len() as int));
    Some(odcid)
}

/// The connection ID in a token is read back as it was put in.
pub proof fn retry_token_round_trip(src: Seq<u8>, dcid: Seq<u8>)
    ensures
        token_odcid(src, retry_token(src, dcid)) == Some(dcid),
{
    let token = retry_token(src, dcid);
    let prefix = token_prefix(src);
    assert(token.subrange(0, prefix.len() as int) =~= prefix);
    assert(token.subrange(prefix.len() as int, token.len() as int) =~= dcid);
}

/// A token is worth nothing at any other address than the one it was made for.
pub proof fn retry_token_is_bound_to_its_address(src: Seq<u8>, other: Seq<u8>, dcid: Seq<u8>)
    requires
        src.len() == other.len(),
        src != other,
    ensures
        token_odcid(other, retry_token(src, dcid)) is None,
{
    let token = retry_token(src, dcid);
    let name = encode_utf8("quiche"@);
    if token_prefix(other).is_prefix_of(token) {
        assert forall|i: int| 0 <= i < src.len() implies src[i] == other[i] by {
            assert(token_prefix(other)[name.len() + i] == token[name.len() + i]);
        }
        assert(src =~= other);
    }
}

/// What the server reads of the header of a packet.
pub struct PacketHeader {
    /// Whether the packet starts a connection.
    pub is_initial: bool,
    /// Whether the server speaks the version of QUIC that the packet is written in.
    pub version_supported: bool,
    /// The connection ID that the packet is for.
    pub dcid: Vec<u8>,
    /// The address validation token, where this kind of packet carries one.
    pub token: Option<Vec<u8>>,
}

/// What the header of a packet holds.
pub struct PacketView {
    pub is_initial: bool,
    pub version_supported: bool,
    pub dcid: Seq<u8>,
    pub token: Option<Seq<u8>>,
}

impl View for PacketHeader {
    type V = PacketView;

    open spec fn view(&self) -> PacketView {
        PacketView {
            is_initial: self.is_initial,
            version_supported: self.version_supported,
            dcid: self.dcid@,
            token: match self.token {
                Some(token) => Some(token@),
                None => None,
            },
        }
    }
}

/// What to do with a packet.
pub enum PacketRoute {
    /// Hand it to the client with this ID.
    Existing(Vec<u8>),
    /// Drop it: it belongs to no client and starts no connection.
    NotInitial,
    /// Answer with the versions that the server speaks.
    Negotiate,
    /// Ask the client to come back to this connection ID with this token.
    Retry(Vec<u8>, Vec<u8>),
    /// Drop it: its token was not made for its address.
    InvalidToken,
    /// Accept a connection under this ID. The second ID is the one that the client picked first.
    Accept(Vec<u8>, Vec<u8>),
}

/// What a route says.
pub enum RouteView {
    Existing(Seq<u8>),
    NotInitial,
    Negotiate,
    Retry(Seq<u8>, Seq<u8>),
    InvalidToken,
    Accept(Seq<u8>, Seq<u8>),
}

impl View for PacketRoute {
    type V = RouteView;

    open spec fn view(&self) -> RouteView {
        match self {
            PacketRoute::Existing(id) => RouteView::Existing(id@),
            PacketRoute::NotInitial => RouteView::NotInitial,
            PacketRoute::Negotiate => RouteView::Negotiate,
            PacketRoute::Retry(scid, token) => RouteView::Retry(scid@, token@),
            PacketRoute::InvalidToken => RouteView::InvalidToken,
            PacketRoute::Accept(scid, odcid) => RouteView::Accept(scid@, odcid@),
        }
    }
}

/// Whether a packet asks for a connection of its own, in a version that the server speaks.
pub open spec fn opens_connection(
    known: Set<Seq<u8>>,
    packet: PacketView,
    conn_id: Seq<u8>,
) -> bool {
    &&& !known.contains(packet.dcid)
    &&& !known.contains(conn_id)
    &&& packet.is_initial
    &&& packet.version_supported
}

/// What to do with a packet from the address `src`, where `known` are the IDs of the clients and
/// `conn_id` is the ID that the server derives from that of the packet.
pub open spec fn packet_route(
    known: Set<Seq<u8>>,
    packet: PacketView,
    conn_id: Seq<u8>,
    src: Seq<u8>,
) -> RouteView {
    if known.contains(packet.dcid) {
        RouteView::Existing(packet.dcid)
    } else if known.contains(conn_id) {
        RouteView::Existing(conn_id)
    } else if !packet.is_initial {
        RouteView::NotInitial
    } else if !packet.version_supported {
        RouteView::Negotiate
    } else {
        let token = packet.token->0;
        if token.len() == 0 {
            RouteView::Retry(conn_id, retry_token(src, packet.dcid))
        } else {
            match token_odcid(src, token) {
                Some(odcid) => RouteView::Accept(packet.dcid, odcid),
                None => RouteView::InvalidToken,
            }
        }
    }
}

/// Whether a packet can be routed at all. One that opens a connection has to come from an address
/// that tokens are made for and to carry a token, if only an empty one; with a valid token it has
/// to come to an ID of the length that the server picks.
pub open spec fn routable(
    known: Set<Seq<u8>>,
    packet: PacketView,
    conn_id: Seq<u8>,
    src: Option<Seq<u8>>,
) -> bool {
    opens_connection(known, packet, conn_id) ==> {
        &&& src is Some
        &&& packet.token is Some
        &&& packet.token->0.len() > 0 && token_odcid(src->0, packet.token->0) is Some
            ==> packet.dcid.len() == MAX_CONN_ID_LEN
    }
}

/// Decides what to do with a packet from the address `src`, where `conn_id` is the ID that the
/// server derives from that of the packet.
pub fn route_packet<C>(
    clients: &ClientMap<C>,
    packet: &PacketHeader,
    conn_id: Vec<u8>,
    src: &[u8; 4],
) -> (route: PacketRoute)
    requires
        clients.well_formed(),
        routable(clients@.dom(), packet@, conn_id@, Some(src@)),
    ensures
        route@ == packet_route(clients@.dom(), packet@, conn_id@, src@),
        !clients@.contains_key(packet.dcid@) && !clients@.contains_key(conn_id@)
            && packet.is_initial && packet.version_supported ==> (packet.token matches Some(token)
            ==> if token@.len() == 0 {
            &&& route matches PacketRoute::Retry(scid, minted)
            &&& scid@ == conn_id@
            &&& minted@ == encode_utf8("quiche"@) + src@ + packet.dcid@
        } else {
            match route {
                PacketRoute::Accept(scid, odcid) => {
                    &&& scid@ == packet.dcid@
                    &&& token@ == encode_utf8("quiche"@) + src@ + odcid@
                },
                PacketRoute::InvalidToken => token_odcid(src@, token@) is None,
                _ => false,
            }
        }),
        clients@.contains_key(packet.dcid@) ==> (route matches PacketRoute::Existing(id) && id@
            == packet.dcid@),
{
    if clients.contains_key(packet.dcid.as_slice()) {
        return PacketRoute::Existing(slice_to_vec(packet.dcid.as_slice()));
    }
    if clients.contains_key(conn_id.as_slice()) {
        return PacketRoute::Existing(conn_id);
    }
    if !packet.is_initial {
        return PacketRoute::NotInitial;
    }
    if !packet.version_supported {
        return PacketRoute::Negotiate;
    }
    match &packet.token {
        Some(token) => {
            if token.len() == 0 {
                return PacketRoute::Retry(conn_id, mint_token(packet.dcid.as_slice(), src));
            }
            let valid = validate_token(src, token.as_slice());
            proof {
                if valid is Some {
                    let prefix = token_prefix(src@);
                    assert(token@.subrange(0, prefix.len() as int) =~= prefix);
                    assert(token@ =~= prefix + valid->0@);
                }
            }
            match valid {
                Some(odcid) => PacketRoute::Accept(
                    slice_to_vec(packet.dcid.as_slice()),
                    slice_to_vec(odcid),
                ),
                None => PacketRoute::InvalidToken,
            }
        },
        None => PacketRoute::InvalidToken,
    }
}

/// The bytes of an address that tokens are made for.
pub open spec fn address_bytes(src: Option<[u8; 4]>) -> Option<Seq<u8>> {
    match src {
        Some(octets) => Some(octets@),
        None => None,
    }
}

/// Whether a packet can be routed at all.
pub fn is_routable<C>(
    clients: &ClientMap<C>,
    packet: &PacketHeader,
    conn_id: &[u8],
    src: Option<[u8; 4]>,
) -> (can: bool)
    requires
        clients.well_formed(),
    ensures
        can == routable(clients@.dom(), packet@, conn_id@, address_bytes(src)),
{
    if clients.contains_key(packet.dcid.as_slice()) || clients.contains_key(conn_id)
        || !packet.is_initial || !packet.version_supported {
        return true;
    }
    match (src, &packet.token) {
        (Some(octets), Some(token)) => {
            token.len() == 0 || validate_token(&octets, token.as_slice()).is_none()
                || packet.dcid.len() == MAX_CONN_ID_LEN
        },
        _ => false,
    }
}

/// Decides what to do with a packet by the clients and the secret of the server. `src` is the
/// address that the packet comes from, where it is one that tokens are made for. There is no
/// route for a packet that cannot be routed.
pub fn route<C>(
    clients: &ClientMap<C>,
    packet: &PacketHeader,
    seed: &ConnIdSeed,
    src: Option<[u8; 4]>,
) -> (route: Option<PacketRoute>)
    requires
        clients.well_formed(),
        packet.dcid@.len() + 64 <= 0x1fff_ffff_ffff_ffff,
    ensures
        ({
            let conn_id = derived_conn_id(seed.key@, packet.dcid@);
            let address = address_bytes(src);
            match route {
                Some(r) => {
                    &&& routable(clients@.dom(), packet@, conn_id, address)
                    &&& r@ == packet_route(clients@.dom(), packet@, conn_id, address->0)
                },
                None => !routable(clients@.dom(), packet@, conn_id, address),
            }
        }),
{
    let conn_id = seed.conn_id(packet.dcid.as_slice());
    if !is_routable(clients, packet, conn_id.as_slice(), src) {
        return None;
    }
    let octets: [u8; 4] = match src {
        Some(octets) => octets,
        None => [0, 0, 0, 0],
    };
    Some(route_packet(clients, packet, conn_id, &octets))
}

/// A packet that opens a connection and carries no token yet is answered with a retry, whatever
/// the ID that its client picked: to the ID that the server derives, with the token for its
/// address and its ID.
pub proof fn first_packet_is_retried(
    known: Set<Seq<u8>>,
    packet: PacketView,
    conn_id: Seq<u8>,
    src: Seq<u8>,
)
    requires
        !known.contains(packet.dcid),
        !known.contains(conn_id),
        packet.is_initial,
        packet.version_supported,
        packet.token == Some(Seq::<u8>::empty()),
    ensures
        packet_route(known, packet, conn_id, src) == RouteView::Retry(
            conn_id,
            encode_utf8("quiche"@) + src + packet.dcid,
        ),
{
}

/// A client that does what it is asked gets in, whatever ID it picked: its first packet is
/// answered with a retry, and the packet that it then sends to the ID of the retry, with the token
/// of the retry, is accepted under that ID and with the ID that the client picked first. Sent from
/// another address, that packet is dropped.
pub proof fn retried_client_is_accepted(
    known: Set<Seq<u8>>,
    first: PacketView,
    conn_id: Seq<u8>,
    src: Seq<u8>,
    known_later: Set<Seq<u8>>,
    second: PacketView,
    second_conn_id: Seq<u8>,
    other: Seq<u8>,
)
    requires
        !known.contains(first.dcid),
        !known.contains(conn_id),
        first.is_initial,
        first.version_supported,
        first.token == Some(Seq::<u8>::empty()),
        !known_later.contains(second.dcid),
        !known_later.contains(second_conn_id),
        second.is_initial,
        second.version_supported,
        second.dcid == conn_id,
        second.token == Some(retry_token(src, first.dcid)),
        other.len() == src.len(),
        other != src,
    ensures
        packet_route(known, first, conn_id, src) == RouteView::Retry(
            second.dcid,
            second.token->0,
        ),
        packet_route(known_later, second, second_conn_id, src) == RouteView::Accept(
            second.dcid,
            first.dcid,
        ),
        packet_route(known_later, second, second_conn_id, other) == RouteView::InvalidToken,
{
    first_packet_is_retried(known, first, conn_id, src);
    if src.len() == 0 {
        assert(src =~= other);
    }
    assert(retry_token(src, first.dcid).len() > 0);
    retry_token_round_trip(src, first.dcid);
    retry_token_is_bound_to_its_address(src, other, first.dcid);
}

/// A token opens a connection exactly where it is the one for its address and some ID, and then
/// that ID is the one that the client picked first.
pub proof fn only_tokens_of_the_server_are_accepted(
    known: Set<Seq<u8>>,
    packet: PacketView,
    conn_id: Seq<u8>,
    src: Seq<u8>,
    odcid: Seq<u8>,
)
    requires
        !known.contains(packet.dcid),
        !known.contains(conn_id),
        packet.is_initial,
        packet.version_supported,
        packet.token is Some,
        packet.token->0.len() > 0,
    ensures
        packet_route(known, packet, conn_id, src) == RouteView::Accept(packet.dcid, odcid)
            <==> packet.token->0 == encode_utf8("quiche"@) + src + odcid,
        packet_route(known, packet, conn_id, src) is Accept || packet_route(
            known,
            packet,
            conn_id,
            src,
        ) is InvalidToken,
{
    let token = packet.token->0;
    retry_token_round_trip(src, odcid);
    if let Some(id) = token_odcid(src, token) {
        let prefix = token_prefix(src);
        assert(token.subrange(0, prefix.len() as int) =~= prefix);
        assert(token =~= encode_utf8("quiche"@) + src + id);
    }
}

/// Every packet is one of six: it belongs to the client with its ID, or else to the one with the
/// ID that the server derives; of the others, one that starts no connection is dropped, one in an
/// unknown version is answered with the known ones, and the rest are retried, accepted or dropped
/// by their token.
pub proof fn packets_are_told_apart(
    known: Set<Seq<u8>>,
    packet: PacketView,
    conn_id: Seq<u8>,
    src: Seq<u8>,
)
    ensures
        ({
            let route = packet_route(known, packet, conn_id, src);
            let nobodys = !known.contains(packet.dcid) && !known.contains(conn_id);
            &&& known.contains(packet.dcid) ==> route == RouteView::Existing(packet.dcid)
            &&& !known.contains(packet.dcid) && known.contains(conn_id) ==> route
                == RouteView::Existing(conn_id)
            &&& nobodys && !packet.is_initial <==> route is NotInitial
            &&& nobodys && packet.is_initial && !packet.version_supported <==> route is Negotiate
        }),
{
}

/// Every packet of a client, every one that starts no connection, every one in an unknown version
/// and every first one of a client can be routed; so can one with a token, unless the token is
/// valid and the packet comes to an ID that is not of the length that the server picks.
pub proof fn ordinary_packets_can_be_routed(
    known: Set<Seq<u8>>,
    packet: PacketView,
    conn_id: Seq<u8>,
    src: Seq<u8>,
)
    ensures
        known.contains(packet.dcid) || known.contains(conn_id) || !packet.is_initial
            || !packet.version_supported ==> routable(known, packet, conn_id, None) && routable(
            known,
            packet,
            conn_id,
            Some(src),
        ),
        packet.token == Some(Seq::<u8>::empty()) ==> routable(known, packet, conn_id, Some(src)),
        packet.token is Some && packet.dcid.len() == 20 ==> routable(
            known,
            packet,
            conn_id,
            Some(src),
        ),
        packet.token is Some && (forall|id: Seq<u8>|
            packet.token->0 != #[trigger] (encode_utf8("quiche"@) + src + id)) ==> routable(
            known,
            packet,
            conn_id,
            Some(src),
        ),
{
    if packet.token is Some {
        let token = packet.token->0;
        if let Some(id) = token_odcid(src, token) {
            let prefix = token_prefix(src);
            assert(token.subrange(0, prefix.len() as int) =~= prefix);
            assert(token =~= encode_utf8("quiche"@) + src + id);
        }
    }
}

/// A derived ID is made of the first twenty bytes of the tag of the whole ID under the whole
/// secret.
pub proof fn derived_ids_start_the_tag(key: Seq<u8>, dcid: Seq<u8>)
    requires
        hmac_sha256(key, dcid).len() >= 20,
    ensures
        derived_conn_id(key, dcid).len() == 20,
        forall|i: int|
            0 <= i < 20 ==> #[trigger] derived_conn_id(key, dcid)[i] == hmac_sha256(key, dcid)[i],
{
}

/// Once a client is known under an ID, packets for that ID are handed to it, whatever else they
/// hold and wherever they come from.
pub proof fn known_clients_get_their_packets(
    known: Set<Seq<u8>>,
    packet: PacketView,
    conn_id: Seq<u8>,
    src: Seq<u8>,
)
    requires
        known.contains(packet.dcid),
    ensures
        packet_route(known, packet, conn_id, src) == RouteView::Existing(packet.dcid),
{
}

} // verus!
