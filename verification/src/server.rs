//! The server's side of a match: who has joined, who is ready, and what
//! each packet makes the server send.

use std::collections::HashMap;
use vstd::prelude::*;

use crate::protocol::{bytes_from, framed, frame_packet, MessageType, PlayerId, MAGIC_BYTE, MAX_PLAYERS};

verus! {

broadcast use vstd::std_specs::hash::group_hash_axioms;

/// A peer's socket address: the IP address as a number (an IPv4 address
/// in its low 32 bits), the port, and for IPv6 the flow and scope ids.
#[derive(Clone, Copy, Debug, PartialEq, Eq, Structural)]
pub struct PeerAddr {
    pub ip: u128,
    pub port: u16,
    pub is_v6: bool,
    pub flowinfo: u32,
    pub scope_id: u32,
}

/// A packet to send, with its destination.
#[derive(Debug)]
pub struct Outgoing {
    pub to: PeerAddr,
    pub bytes: Vec<u8>,
}

impl View for Outgoing {
    type V = (PeerAddr, Seq<u8>);

    open spec fn view(&self) -> (PeerAddr, Seq<u8>) {
        (self.to, self.bytes@)
    }
}

/// The packets of a list, each by its view.
pub open spec fn sent(outs: Seq<Outgoing>) -> Seq<(PeerAddr, Seq<u8>)> {
    outs.map_values(|o: Outgoing| o@)
}

/// The server's state of the match.
pub struct ServerState {
    player_ids: Vec<PlayerId>,
    address_to_id: Vec<(PeerAddr, PlayerId)>,
    id_to_address: HashMap<PlayerId, PeerAddr>,
    players_ready: HashMap<PlayerId, bool>,
    game_started: bool,
}

/// What the server state holds. `players` lists each joined address with
/// its id, in the order they were bound, each address once.
pub struct ServerView {
    pub player_ids: Seq<PlayerId>,
    pub players: Seq<(PeerAddr, PlayerId)>,
    pub id_to_address: Map<PlayerId, PeerAddr>,
    pub players_ready: Map<PlayerId, bool>,
    pub game_started: bool,
}

impl View for ServerState {
    type V = ServerView;

    closed spec fn view(&self) -> ServerView {
        ServerView {
            player_ids: self.player_ids@,
            players: self.address_to_id@,
            id_to_address: self.id_to_address@,
            players_ready: self.players_ready@,
            game_started: self.game_started,
        }
    }
}

/// No address is listed twice.
pub open spec fn addresses_distinct(players: Seq<(PeerAddr, PlayerId)>) -> bool {
    forall|i: int, j: int|
        0 <= i < players.len() && 0 <= j < players.len() && i != j ==> players[i].0 != players[j].0
}

/// Whether `a` is a joined address.
pub open spec fn has_address(players: Seq<(PeerAddr, PlayerId)>, a: PeerAddr) -> bool {
    exists|i: int| 0 <= i < players.len() && players[i].0 == a
}

/// The list after binding `a` to `id`: the id replaces the old one where
/// `a` is listed, else `a` is added at the end.
pub open spec fn bound(players: Seq<(PeerAddr, PlayerId)>, a: PeerAddr, id: PlayerId) -> Seq<
    (PeerAddr, PlayerId),
> {
    if has_address(players, a) {
        players.update(choose|i: int| 0 <= i < players.len() && players[i].0 == a, (a, id))
    } else {
        players.push((a, id))
    }
}

/// The same packet to every joined address, in the list's order.
pub open spec fn to_all(players: Seq<(PeerAddr, PlayerId)>, bytes: Seq<u8>) -> Seq<
    (PeerAddr, Seq<u8>),
> {
    players.map_values(|p: (PeerAddr, PlayerId)| (p.0, bytes))
}

/// The same packet to every joined address but `skip`, in the list's order.
pub open spec fn to_all_but(players: Seq<(PeerAddr, PlayerId)>, skip: PeerAddr, bytes: Seq<u8>) -> Seq<
    (PeerAddr, Seq<u8>),
> {
    players.filter_map(
        |p: (PeerAddr, PlayerId)|
            if p.0 != skip {
                Some((p.0, bytes))
            } else {
                None
            },
    )
}

/// The packets on which the server gives up: too short for what their
/// type needs, or a guess from an id no address is bound to.
pub open spec fn server_packet_fails(s: ServerView, payload: Seq<u8>) -> bool {
    ||| payload.len() == 0
    ||| (payload[0] == MAGIC_BYTE && payload.len() < 2)
    ||| (payload[0] == MAGIC_BYTE && payload.len() >= 2 && {
        let t = payload[1];
        let data = payload.skip(2);
        ||| ((t == MessageType::ReadyEvent.spec_byte() || t == MessageType::FinishEvent.spec_byte())
            && data.len() == 0)
        ||| (t == MessageType::GuessEvent.spec_byte() && (data.len() == 0
            || !s.id_to_address.contains_key(data[0])))
    })
}

/// A join from `from`: refused when the match is full or `from` has joined;
/// else `from` gets the next id, which is the number of players so far.
pub open spec fn join_step(s: ServerView, from: PeerAddr) -> (ServerView, Seq<(PeerAddr, Seq<u8>)>) {
    if s.player_ids.len() >= MAX_PLAYERS || has_address(s.players, from) {
        (s, seq![])
    } else {
        let id = s.player_ids.len() as u8;
        (
            ServerView {
                player_ids: s.player_ids.push((id + 1) as u8),
                players: bound(s.players, from, id),
                id_to_address: s.id_to_address.insert(id, from),
                ..s
            },
            seq![(from, framed(MessageType::AssignIdEvent, seq![id]))],
        )
    }
}

/// What a packet from `from` does to the server and what it makes it send;
/// a match that starts starts with the word of index `word_index`.
pub open spec fn server_step(s: ServerView, from: PeerAddr, payload: Seq<u8>, word_index: u8) -> (
    ServerView,
    Seq<(PeerAddr, Seq<u8>)>,
) {
    if payload[0] != MAGIC_BYTE {
        (s, seq![])
    } else {
        let t = payload[1];
        let data = payload.skip(2);
        if t == MessageType::JoinEvent.spec_byte() {
            join_step(s, from)
        } else if t == MessageType::ReadyEvent.spec_byte() {
            let ready = s.players_ready.insert(data[0], true);
            if ready.len() == MAX_PLAYERS {
                (
                    ServerView { players_ready: ready, game_started: true, ..s },
                    to_all(s.players, framed(MessageType::StartEvent, seq![word_index])),
                )
            } else {
                (ServerView { players_ready: ready, ..s }, seq![])
            }
        } else if t == MessageType::GuessEvent.spec_byte() {
            (
                s,
                to_all_but(
                    s.players,
                    s.id_to_address[data[0]],
                    framed(MessageType::GuessEvent, data),
                ),
            )
        } else if t == MessageType::FinishEvent.spec_byte() {
            (
                ServerView { game_started: false, ..s },
                to_all(s.players, framed(MessageType::EndEvent, seq![data[0]])),
            )
        } else if t == MessageType::Heartbeat.spec_byte() {
            (s, seq![(from, framed(MessageType::Heartbeat, seq![]))])
        } else {
            (s, seq![])
        }
    }
}

impl ServerState {
    /// Every joined address is listed once.
    #[verifier::type_invariant]
    spec fn addresses_listed_once(&self) -> bool {
        addresses_distinct(self.address_to_id@)
    }

    /// No player, nobody ready, no match running.
    pub fn new() -> (s: ServerState)
        ensures
            s@.player_ids == Seq::<PlayerId>::empty(),
            s@.players == Seq::<(PeerAddr, PlayerId)>::empty(),
            s@.id_to_address == Map::<PlayerId, PeerAddr>::empty(),
            s@.players_ready == Map::<PlayerId, bool>::empty(),
            !s@.game_started,
    {
        ServerState {
            player_ids: Vec::new(),
            address_to_id: Vec::new(),
            id_to_address: HashMap::new(),
            players_ready: HashMap::new(),
            game_started: false,
        }
    }

    pub fn get_player_count(&self) -> (n: usize)
        ensures
            n == self@.player_ids.len(),
    {
        self.player_ids.len()
    }

    /// The next id, the number of players so far cut to a byte; the id
    /// after it is recorded.
    pub fn get_next_player_id(&mut self) -> (id: PlayerId)
        requires
            old(self)@.player_ids.len() % 256 != 255,
        ensures
            id == old(self)@.player_ids.len() % 256,
            final(self)@ == (ServerView {
                player_ids: old(self)@.player_ids.push((id + 1) as u8),
                ..old(self)@
            }),
    {
        proof {
            use_type_invariant(&*self);
        }
        let n = self.player_ids.len();
        let id = (n % 256) as u8;
        let mut ids: Vec<PlayerId> = Vec::new();
        std::mem::swap(&mut ids, &mut self.player_ids);
        ids.push(id + 1);
        self.player_ids = ids;
        id
    }

    /// Where `address` is listed.
    fn index_of(&self, address: PeerAddr) -> (i: Option<usize>)
        ensures
            i matches Some(i) ==> i < self@.players.len() && self@.players[i as int].0 == address,
            i is None <==> !has_address(self@.players, address),
    {
        let n = self.address_to_id.len();
        for i in 0..n
            invariant
                n == self@.players.len(),
                forall|j: int| 0 <= j < i ==> self@.players[j].0 != address,
        {
            if self.address_to_id[i].0 == address {
                return Some(i);
            }
        }
        None
    }

    /// Binds `address` and `id` to each other.
    pub fn bind_player(&mut self, address: PeerAddr, id: PlayerId)
        ensures
            final(self)@ == (ServerView {
                players: bound(old(self)@.players, address, id),
                id_to_address: old(self)@.id_to_address.insert(id, address),
                ..old(self)@
            }),
    {
        proof {
            use_type_invariant(&*self);
        }
        match self.index_of(address) {
            Some(i) => {
                let ghost players = self.address_to_id@;
                proof {
                    let c = choose|j: int| 0 <= j < players.len() && players[j].0 == address;
                    assert(c == i);
                }
                let mut players: Vec<(PeerAddr, PlayerId)> = Vec::new();
                std::mem::swap(&mut players, &mut self.address_to_id);
                players.set(i, (address, id));
                self.address_to_id = players;
            },
            None => {
                let mut players: Vec<(PeerAddr, PlayerId)> = Vec::new();
                std::mem::swap(&mut players, &mut self.address_to_id);
                players.push((address, id));
                self.address_to_id = players;
            },
        }
        let mut ids: HashMap<PlayerId, PeerAddr> = HashMap::new();
        std::mem::swap(&mut ids, &mut self.id_to_address);
        ids.insert(id, address);
        self.id_to_address = ids;
    }

    pub fn start_game(&mut self)
        ensures
            final(self)@ == (ServerView { game_started: true, ..old(self)@ }),
    {
        proof {
            use_type_invariant(&*self);
        }
        self.game_started = true;
    }

    pub fn end_game(&mut self)
        ensures
            final(self)@ == (ServerView { game_started: false, ..old(self)@ }),
    {
        proof {
            use_type_invariant(&*self);
        }
        self.game_started = false;
    }
}


impl ServerState {
    /// The packet of type `t` with `data` to every joined address.
    fn send_to_all(&self, t: MessageType, data: &[u8]) -> (outs: Vec<Outgoing>)
        ensures
            sent(outs@) == to_all(self@.players, framed(t, data@)),
    {
        let mut outs: Vec<Outgoing> = Vec::new();
        let n = self.address_to_id.len();
        for i in 0..n
            invariant
                n == self@.players.len(),
                sent(outs@) == to_all(self@.players.take(i as int), framed(t, data@)),
        {
            let to = self.address_to_id[i].0;
            let bytes = frame_packet(t, data);
            let ghost before = outs@;
            outs.push(Outgoing { to, bytes });
            assert(sent(outs@) =~= sent(before).push((to, framed(t, data@))));
            assert(to_all(self@.players.take(i + 1), framed(t, data@)) =~= to_all(
                self@.players.take(i as int),
                framed(t, data@),
            ).push((to, framed(t, data@))));
        }
        assert(self@.players.take(n as int) =~= self@.players);
        outs
    }

    /// The packet of type `t` with `data` to every joined address but `skip`.
    fn send_to_all_but(&self, skip: PeerAddr, t: MessageType, data: &[u8]) -> (outs: Vec<Outgoing>)
        ensures
            sent(outs@) == to_all_but(self@.players, skip, framed(t, data@)),
    {
        let mut outs: Vec<Outgoing> = Vec::new();
        let n = self.address_to_id.len();
        for i in 0..n
            invariant
                n == self@.players.len(),
                sent(outs@) == to_all_but(self@.players.take(i as int), skip, framed(t, data@)),
        {
            let to = self.address_to_id[i].0;
            let ghost before = outs@;
            let ghost prefix = self@.players.take(i + 1);
            assert(prefix.drop_last() =~= self@.players.take(i as int));
            if to != skip {
                let bytes = frame_packet(t, data);
                outs.push(Outgoing { to, bytes });
                assert(sent(outs@) =~= sent(before) + seq![(to, framed(t, data@))]);
            } else {
                assert(sent(outs@) =~= sent(before));
            }
        }
        assert(self@.players.take(n as int) =~= self@.players);
        outs
    }

    /// A heartbeat to every joined address.
    pub fn heartbeats(&self) -> (outs: Vec<Outgoing>)
        ensures
            sent(outs@) == to_all(self@.players, framed(MessageType::Heartbeat, seq![])),
    {
        let empty: Vec<u8> = Vec::new();
        let outs = self.send_to_all(MessageType::Heartbeat, empty.as_slice());
        assert(empty@ =~= Seq::<u8>::empty());
        outs
    }

    /// Decides whether the server gives up on `payload`.
    pub fn packet_check(&self, payload: &Vec<u8>) -> (fails: bool)
        ensures
            fails == server_packet_fails(self@, payload@),
    {
        if payload.len() == 0 {
            return true;
        }
        if payload[0] != MAGIC_BYTE {
            return false;
        }
        if payload.len() < 2 {
            return true;
        }
        let t = payload[1];
        if t == MessageType::ReadyEvent.to_byte() || t == MessageType::FinishEvent.to_byte() {
            return payload.len() == 2;
        }
        if t == MessageType::GuessEvent.to_byte() {
            if payload.len() < 3 {
                return true;
            }
            return !self.id_to_address.contains_key(&payload[2]);
        }
        false
    }

    /// Handles a packet from `from`: updates the match and answers with the
    /// packets to send. Should the packet start the match, every player is
    /// told to play the word of index `word_index`.
    pub fn handle_packet(&mut self, from: PeerAddr, payload: &Vec<u8>, word_index: u8) -> (outs: Vec<Outgoing>)
        requires
            !server_packet_fails(old(self)@, payload@),
        ensures
            (final(self)@, sent(outs@)) == server_step(old(self)@, from, payload@, word_index),
    {
        let ghost s = self@;
        if payload[0] != MAGIC_BYTE {
            return Vec::new();
        }
        let message_type = payload[1];
        let ghost data = payload@.skip(2);
        if message_type == MessageType::JoinEvent.to_byte() {
            if self.get_player_count() >= MAX_PLAYERS || self.index_of(from).is_some() {
                return Vec::new();
            }
            let id = self.get_next_player_id();
            self.bind_player(from, id);
            let data: Vec<u8> = vec![id];
            let bytes = frame_packet(MessageType::AssignIdEvent, data.as_slice());
            assert(data@ =~= seq![id]);
            let mut outs: Vec<Outgoing> = Vec::new();
            outs.push(Outgoing { to: from, bytes });
            assert(sent(outs@) =~= seq![(from, framed(MessageType::AssignIdEvent, seq![id]))]);
            assert(self@ == join_step(s, from).0);
            outs
        } else if message_type == MessageType::ReadyEvent.to_byte() {
            proof {
                use_type_invariant(&*self);
            }
            let mut ready: HashMap<PlayerId, bool> = HashMap::new();
            std::mem::swap(&mut ready, &mut self.players_ready);
            ready.insert(payload[2], true);
            self.players_ready = ready;
            if self.players_ready.len() == MAX_PLAYERS {
                self.start_game();
                let data: Vec<u8> = vec![word_index];
                assert(data@ =~= seq![word_index]);
                self.send_to_all(MessageType::StartEvent, data.as_slice())
            } else {
                Vec::new()
            }
        } else if message_type == MessageType::GuessEvent.to_byte() {
            let id = payload[2];
            let address = match self.id_to_address.get(&id) {
                Some(a) => *a,
                None => {
                    assert(false);
                    from
                },
            };
            let data = bytes_from(payload, 2);
            self.send_to_all_but(address, MessageType::GuessEvent, data.as_slice())
        } else if message_type == MessageType::FinishEvent.to_byte() {
            let id = payload[2];
            self.end_game();
            let data: Vec<u8> = vec![id];
            assert(data@ =~= seq![id]);
            self.send_to_all(MessageType::EndEvent, data.as_slice())
        } else if message_type == MessageType::Heartbeat.to_byte() {
            let empty: Vec<u8> = Vec::new();
            let bytes = frame_packet(MessageType::Heartbeat, empty.as_slice());
            assert(empty@ =~= Seq::<u8>::empty());
            let mut outs: Vec<Outgoing> = Vec::new();
            outs.push(Outgoing { to: from, bytes });
            assert(sent(outs@) =~= seq![(from, framed(MessageType::Heartbeat, seq![]))]);
            outs
        } else {
            Vec::new()
        }
    }
}


/// The packets of `to_all_but` go to joined addresses other than `skip`,
/// all with the same bytes, and every joined address other than `skip`
/// gets one.
pub proof fn lemma_to_all_but(players: Seq<(PeerAddr, PlayerId)>, skip: PeerAddr, bytes: Seq<u8>)
    ensures
        forall|k: int|
            0 <= k < to_all_but(players, skip, bytes).len() ==> {
                &&& to_all_but(players, skip, bytes)[k].0 != skip
                &&& to_all_but(players, skip, bytes)[k].1 == bytes
                &&& has_address(players, to_all_but(players, skip, bytes)[k].0)
            },
        forall|i: int|
            0 <= i < players.len() && players[i].0 != skip ==> exists|k: int|
                0 <= k < to_all_but(players, skip, bytes).len() && to_all_but(players, skip, bytes)[k].0
                    == players[i].0,
    decreases players.len(),
{
    if players.len() > 0 {
        let rest = players.drop_last();
        lemma_to_all_but(rest, skip, bytes);
        let out = to_all_but(players, skip, bytes);
        let out_rest = to_all_but(rest, skip, bytes);
        let last = players.last();
        if last.0 != skip {
            assert(out == out_rest + seq![(last.0, bytes)]);
        } else {
            assert(out == out_rest);
        }
        assert forall|k: int| 0 <= k < out.len() implies has_address(players, out[k].0) by {
            if k < out_rest.len() {
                let i = choose|i: int| 0 <= i < rest.len() && rest[i].0 == out_rest[k].0;
                assert(players[i] == rest[i]);
            } else {
                assert(players[players.len() - 1].0 == out[k].0);
            }
        }
        assert forall|i: int| 0 <= i < players.len() && players[i].0 != skip implies exists|k: int|
            0 <= k < out.len() && out[k].0 == players[i].0 by {
            if i < rest.len() {
                assert(rest[i] == players[i]);
                let k = choose|k: int| 0 <= k < out_rest.len() && out_rest[k].0 == rest[i].0;
                assert(out[k] == out_rest[k]);
            } else {
                assert(out[out.len() - 1].0 == players[i].0);
            }
        }
    }
}

/// A guess is passed on, whole, to every other joined player once, and
/// never back to the address its id is bound to; the state does not change.
pub proof fn lemma_guess_goes_to_the_others(
    s: ServerView,
    from: PeerAddr,
    payload: Seq<u8>,
    word_index: u8,
)
    requires
        !server_packet_fails(s, payload),
        payload[0] == 42,
        payload[1] == 5,
    ensures
        ({
            let (s2, outs) = server_step(s, from, payload, word_index);
            let guesser = s.id_to_address[payload[2]];
            &&& s2 == s
            &&& forall|k: int|
                0 <= k < outs.len() ==> outs[k].0 != guesser && outs[k].1 == seq![42u8, 5u8]
                    + payload.skip(2) && has_address(s.players, outs[k].0)
            &&& forall|i: int|
                0 <= i < s.players.len() && s.players[i].0 != guesser ==> exists|k: int|
                    0 <= k < outs.len() && outs[k].0 == s.players[i].0
            &&& addresses_distinct(s.players) ==> forall|k1: int, k2: int|
                0 <= k1 < outs.len() && 0 <= k2 < outs.len() && k1 != k2 ==> outs[k1].0
                    != outs[k2].0
        }),
{
    let data = payload.skip(2);
    assert(data[0] == payload[2]);
    let bytes = framed(MessageType::GuessEvent, data);
    assert(bytes =~= seq![42u8, 5u8] + payload.skip(2));
    lemma_to_all_but(s.players, s.id_to_address[payload[2]], bytes);
    if addresses_distinct(s.players) {
        lemma_to_all_but_distinct(s.players, s.id_to_address[payload[2]], bytes);
    }
}

/// Over a list without repeated addresses, `to_all_but` sends to each
/// address at most once.
pub proof fn lemma_to_all_but_distinct(
    players: Seq<(PeerAddr, PlayerId)>,
    skip: PeerAddr,
    bytes: Seq<u8>,
)
    requires
        addresses_distinct(players),
    ensures
        forall|k1: int, k2: int|
            0 <= k1 < to_all_but(players, skip, bytes).len() && 0 <= k2 < to_all_but(
                players,
                skip,
                bytes,
            ).len() && k1 != k2 ==> to_all_but(players, skip, bytes)[k1].0 != to_all_but(
                players,
                skip,
                bytes,
            )[k2].0,
    decreases players.len(),
{
    if players.len() > 0 {
        let rest = players.drop_last();
        assert(addresses_distinct(rest)) by {
            assert forall|i: int, j: int|
                0 <= i < rest.len() && 0 <= j < rest.len() && i != j implies rest[i].0 != rest[j].0 by {
                assert(rest[i] == players[i] && rest[j] == players[j]);
            }
        }
        lemma_to_all_but_distinct(rest, skip, bytes);
        lemma_to_all_but(rest, skip, bytes);
        let out = to_all_but(players, skip, bytes);
        let out_rest = to_all_but(rest, skip, bytes);
        let last = players.last();
        if last.0 != skip {
            assert(out == out_rest + seq![(last.0, bytes)]);
            assert forall|k: int| 0 <= k < out_rest.len() implies out_rest[k].0 != last.0 by {
                let i = choose|i: int| 0 <= i < rest.len() && rest[i].0 == out_rest[k].0;
                assert(players[i] == rest[i]);
            }
        } else {
            assert(out == out_rest);
        }
    }
}

/// A ready message records its id as ready. While fewer than
/// `MAX_PLAYERS` distinct ids are ready nothing else happens: the match
/// does not start and nothing is sent. When the count reaches
/// `MAX_PLAYERS`, the match starts and every joined player, in join order,
/// is sent `[42, 4, word_index]`.
pub proof fn lemma_ready_starts_only_when_all_are_ready(
    s: ServerView,
    from: PeerAddr,
    payload: Seq<u8>,
    word_index: u8,
)
    requires
        payload.len() >= 3,
        payload[0] == 42,
        payload[1] == 3,
    ensures
        ({
            let (s2, outs) = server_step(s, from, payload, word_index);
            let ready = s.players_ready.insert(payload[2], true);
            &&& s2.players_ready == ready
            &&& s2.player_ids == s.player_ids
            &&& s2.players == s.players
            &&& s2.id_to_address == s.id_to_address
            &&& ready.len() != 2 ==> s2.game_started == s.game_started && outs.len() == 0
            &&& ready.len() == 2 ==> {
                &&& s2.game_started
                &&& outs.len() == s.players.len()
                &&& forall|k: int|
                    0 <= k < outs.len() ==> outs[k] == (s.players[k].0, seq![42u8, 4u8, word_index])
            }
        }),
{
    assert(payload.skip(2)[0] == payload[2]);
    let start = framed(MessageType::StartEvent, seq![word_index]);
    assert(start =~= seq![42u8, 4u8, word_index]);
}

/// A join from a new address while fewer than `MAX_PLAYERS` have joined
/// adds that address with the id equal to the number of players so far,
/// binds the id to it, records the next id, and answers the joiner alone
/// with `[42, 2, id]`. A join when the match is full or from an address
/// that has joined changes nothing and sends nothing.
pub proof fn lemma_join(s: ServerView, from: PeerAddr, payload: Seq<u8>, word_index: u8)
    requires
        payload.len() >= 2,
        payload[0] == 42,
        payload[1] == 1,
    ensures
        ({
            let (s2, outs) = server_step(s, from, payload, word_index);
            let n = s.player_ids.len();
            if n >= 2 || has_address(s.players, from) {
                s2 == s && outs.len() == 0
            } else {
                &&& s2.players == s.players.push((from, n as u8))
                &&& s2.id_to_address == s.id_to_address.insert(n as u8, from)
                &&& s2.player_ids == s.player_ids.push((n + 1) as u8)
                &&& s2.players_ready == s.players_ready
                &&& s2.game_started == s.game_started
                &&& outs == seq![(from, seq![42u8, 2u8, n as u8])]
            }
        }),
{
    let n = s.player_ids.len();
    if !(n >= 2 || has_address(s.players, from)) {
        let answer = framed(MessageType::AssignIdEvent, seq![n as u8]);
        assert(answer =~= seq![42u8, 2u8, n as u8]);
    }
}

/// A finish message ends the match and tells every joined player, in
/// join order, `[42, 7, id]` with the finisher's id; nothing else changes.
pub proof fn lemma_finish(s: ServerView, from: PeerAddr, payload: Seq<u8>, word_index: u8)
    requires
        payload.len() >= 3,
        payload[0] == 42,
        payload[1] == 6,
    ensures
        ({
            let (s2, outs) = server_step(s, from, payload, word_index);
            &&& s2 == ServerView { game_started: false, ..s }
            &&& outs.len() == s.players.len()
            &&& forall|k: int|
                0 <= k < outs.len() ==> outs[k] == (s.players[k].0, seq![42u8, 7u8, payload[2]])
        }),
{
    assert(payload.skip(2)[0] == payload[2]);
    let end = framed(MessageType::EndEvent, seq![payload[2]]);
    assert(end =~= seq![42u8, 7u8, payload[2]]);
}

/// A heartbeat is answered with one heartbeat `[42, 0]` to its sender; a
/// packet that does not open with the magic byte, and one of a type the
/// server does not handle, change nothing and send nothing.
pub proof fn lemma_heartbeat_and_ignored_packets(
    s: ServerView,
    from: PeerAddr,
    payload: Seq<u8>,
    word_index: u8,
)
    requires
        payload.len() >= 1,
    ensures
        payload.len() >= 2 && payload[0] == 42 && payload[1] == 0 ==> server_step(
            s,
            from,
            payload,
            word_index,
        ) == (s, seq![(from, seq![42u8, 0u8])]),
        payload[0] != 42 ==> server_step(s, from, payload, word_index) == (
            s,
            Seq::<(PeerAddr, Seq<u8>)>::empty(),
        ),
        payload.len() >= 2 && payload[0] == 42 && payload[1] != 0 && payload[1] != 1 && payload[1]
            != 3 && payload[1] != 5 && payload[1] != 6 ==> server_step(s, from, payload, word_index)
            == (s, Seq::<(PeerAddr, Seq<u8>)>::empty()),
{
    let beat = framed(MessageType::Heartbeat, seq![]);
    assert(beat =~= seq![42u8, 0u8]);
}

/// The server gives up on a packet exactly when it is empty, opens with
/// the magic byte but has no type byte, is a ready or finish message with
/// no id, or is a guess with no id or from an id no address is bound to.
pub proof fn lemma_server_refuses_only_malformed(s: ServerView, p: Seq<u8>)
    ensures
        !server_packet_fails(s, p) <==> (p.len() >= 1 && (p[0] != 42 || (p.len() >= 2 && ((p[1]
            == 3 || p[1] == 6) ==> p.len() >= 3) && (p[1] == 5 ==> p.len() >= 3
            && s.id_to_address.contains_key(p[2]))))),
{
    if p.len() >= 3 {
        assert(p.skip(2)[0] == p[2]);
    }
}

/// `to_all` sends the same bytes to every listed address, in order.
pub proof fn lemma_to_all(players: Seq<(PeerAddr, PlayerId)>, bytes: Seq<u8>)
    ensures
        to_all(players, bytes).len() == players.len(),
        forall|k: int|
            0 <= k < players.len() ==> #[trigger] to_all(players, bytes)[k] == (players[k].0, bytes),
{
}

/// Whether `players` lists the address `a` with the id `i`.
pub open spec fn holds_pair(players: Seq<(PeerAddr, PlayerId)>, a: PeerAddr, i: PlayerId) -> bool {
    exists|k: int| 0 <= k < players.len() && players[k] == (a, i)
}

/// Addresses and ids in one-to-one correspondence: at most `MAX_PLAYERS`
/// players, as many bound ids as players, an address listed with an id
/// exactly when the id maps to it, every bound id below the number of
/// players, and no address listed twice.
pub open spec fn roster_one_to_one(s: ServerView) -> bool {
    &&& s.player_ids.len() <= MAX_PLAYERS
    &&& s.players.len() == s.player_ids.len()
    &&& s.id_to_address.dom().finite()
    &&& s.id_to_address.len() == s.player_ids.len()
    &&& forall|a: PeerAddr, i: PlayerId|
        #[trigger] holds_pair(s.players, a, i) <==> (s.id_to_address.contains_key(i)
            && s.id_to_address[i] == a)
    &&& forall|i: PlayerId| #[trigger] s.id_to_address.contains_key(i) ==> i < s.player_ids.len()
    &&& addresses_distinct(s.players)
}

/// A new server's roster is one-to-one.
pub proof fn lemma_new_roster_one_to_one()
    ensures
        roster_one_to_one(
            ServerView {
                player_ids: Seq::empty(),
                players: Seq::empty(),
                id_to_address: Map::empty(),
                players_ready: Map::empty(),
                game_started: false,
            },
        ),
{
}

/// From any state whose roster is one-to-one, whatever packet the server
/// handles keeps it so: no more than `MAX_PLAYERS` join, and addresses and
/// ids stay in one-to-one correspondence.
pub proof fn lemma_step_keeps_roster_one_to_one(
    s: ServerView,
    from: PeerAddr,
    payload: Seq<u8>,
    word_index: u8,
)
    requires
        roster_one_to_one(s),
        !server_packet_fails(s, payload),
    ensures
        roster_one_to_one(server_step(s, from, payload, word_index).0),
{
    if payload[0] == MAGIC_BYTE && payload[1] == MessageType::JoinEvent.spec_byte() {
        if !(s.player_ids.len() >= MAX_PLAYERS || has_address(s.players, from)) {
            let n = s.players.len();
            let id = n as u8;
            let s2 = join_step(s, from).0;
            assert(s2.players == s.players.push((from, id)));
            assert(!s.id_to_address.contains_key(id));
            assert(s2.id_to_address.dom() =~= s.id_to_address.dom().insert(id));
            assert forall|a: PeerAddr, i: PlayerId|
                #[trigger] holds_pair(s2.players, a, i) <==> (s2.id_to_address.contains_key(i)
                    && s2.id_to_address[i] == a) by {
                if holds_pair(s2.players, a, i) {
                    let k = choose|k: int| 0 <= k < s2.players.len() && s2.players[k] == (a, i);
                    if k < n {
                        assert(s.players[k] == s2.players[k]);
                        assert(holds_pair(s.players, a, i));
                    }
                }
                if s2.id_to_address.contains_key(i) && s2.id_to_address[i] == a {
                    if i == id {
                        assert(s2.players[n as int] == (a, i));
                    } else {
                        assert(holds_pair(s.players, a, i));
                        let k = choose|k: int| 0 <= k < s.players.len() && s.players[k] == (a, i);
                        assert(s2.players[k] == s.players[k]);
                    }
                }
            }
            assert forall|i: int, j: int|
                0 <= i < s2.players.len() && 0 <= j < s2.players.len() && i != j implies s2.players[i].0
                != s2.players[j].0 by {
                if i == n {
                    assert(s.players[j].0 == s2.players[j].0);
                } else if j == n {
                    assert(s.players[i].0 == s2.players[i].0);
                }
            }
        }
    }
}

/// On a list without repeated addresses, binding `a` to `id` lists `a`
/// with `id` and changes no other entry: an
/// address already listed keeps its place, a new one is added at the end.
pub proof fn lemma_bound(players: Seq<(PeerAddr, PlayerId)>, a: PeerAddr, id: PlayerId)
    requires
        addresses_distinct(players),
    ensures
        bound(players, a, id).len() == if has_address(players, a) {
            players.len()
        } else {
            players.len() + 1
        },
        holds_pair(bound(players, a, id), a, id),
        forall|k: int|
            0 <= k < players.len() && players[k].0 != a ==> #[trigger] bound(players, a, id)[k]
                == players[k],
        forall|k: int| 0 <= k < players.len() ==> #[trigger] bound(players, a, id)[k].0 == players[k].0,
{
    let b = bound(players, a, id);
    if has_address(players, a) {
        let i = choose|i: int| 0 <= i < players.len() && players[i].0 == a;
        assert(0 <= i < players.len() && players[i].0 == a);
        assert(b.len() == players.len());
        assert(b[i].0 == a);
        assert(b[i] == (a, id));
    } else {
        assert(b[players.len() as int] == (a, id));
    }
}

} // verus!
