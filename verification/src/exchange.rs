//! How what the server sends is read by the clients.

use vstd::prelude::*;

use crate::client::{client_after, client_packet_fails, data_of, names_winner, type_byte, ClientView};
use crate::protocol::{framed, MessageType, MAGIC_BYTE, MAX_PLAYERS};
use crate::server::{has_address, roster_one_to_one, server_step, PeerAddr, ServerView};

verus! {

/// A client that joins a match with room for it gets one answer, sent to
/// it, which it accepts and reads as the id the server bound its address to.
pub proof fn lemma_join_tells_client_its_id(
    s: ServerView,
    from: PeerAddr,
    c: ClientView,
    word_index: u8,
)
    requires
        roster_one_to_one(s),
        s.players.len() < MAX_PLAYERS,
        !has_address(s.players, from),
    ensures
        ({
            let (s2, outs) = server_step(s, from, framed(MessageType::JoinEvent, seq![]), word_index);
            &&& outs.len() == 1
            &&& outs[0].0 == from
            &&& !client_packet_fails(outs[0].1)
            &&& client_after(c, outs[0].1) == (ClientView { id: s.players.len() as u8, ..c })
            &&& s2.id_to_address[s.players.len() as u8] == from
        }),
{
    let p = framed(MessageType::JoinEvent, seq![]);
    assert(p[0] == MAGIC_BYTE && p[1] == MessageType::JoinEvent.spec_byte());
    let id = s.players.len() as u8;
    let answer = framed(MessageType::AssignIdEvent, seq![id]);
    assert(answer.skip(2) =~= seq![id]);
}

/// When a player finishes, every joined client is told, accepts the
/// message, ends its match, and sees itself the winner exactly when its id
/// is the finisher's.
pub proof fn lemma_finish_ends_every_client(
    s: ServerView,
    from: PeerAddr,
    winner: u8,
    c: ClientView,
    word_index: u8,
)
    ensures
        ({
            let (s2, outs) = server_step(
                s,
                from,
                framed(MessageType::FinishEvent, seq![winner]),
                word_index,
            );
            &&& !s2.game_started
            &&& outs.len() == s.players.len()
            &&& forall|k: int|
                0 <= k < outs.len() ==> {
                    &&& outs[k].0 == s.players[k].0
                    &&& !client_packet_fails(outs[k].1)
                    &&& client_after(c, outs[k].1) == (ClientView { game_over: true, ..c })
                    &&& names_winner(c, outs[k].1) == (c.id == winner)
                }
        }),
{
    let p = framed(MessageType::FinishEvent, seq![winner]);
    assert(p.skip(2) =~= seq![winner]);
    let end = framed(MessageType::EndEvent, seq![winner]);
    assert(end.skip(2) =~= seq![winner]);
}

/// When the last player gets ready, every joined client is sent the start
/// message, accepts it, and is asked for the same word: the one of index
/// `word_index`.
pub proof fn lemma_start_gives_every_client_the_word(
    s: ServerView,
    from: PeerAddr,
    id: u8,
    word_index: u8,
)
    requires
        s.players_ready.insert(id, true).len() == MAX_PLAYERS,
    ensures
        ({
            let (s2, outs) = server_step(
                s,
                from,
                framed(MessageType::ReadyEvent, seq![id]),
                word_index,
            );
            &&& s2.game_started
            &&& outs.len() == s.players.len()
            &&& forall|k: int|
                0 <= k < outs.len() ==> {
                    &&& outs[k].0 == s.players[k].0
                    &&& !client_packet_fails(outs[k].1)
                    &&& type_byte(outs[k].1) == MessageType::StartEvent.spec_byte()
                    &&& data_of(outs[k].1)[0] == word_index
                }
        }),
{
    let p = framed(MessageType::ReadyEvent, seq![id]);
    assert(p.skip(2) =~= seq![id]);
    let start = framed(MessageType::StartEvent, seq![word_index]);
    assert(start.skip(2) =~= seq![word_index]);
}

} // verus!
