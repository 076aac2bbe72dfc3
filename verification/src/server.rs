//! Decisions of the server loop: which token a new connection gets, and what
//! a connection sends after its transfer processed a packet.
use crate::packet::{ErrorCode, Packet, PacketModel};
use crate::tftp_proto::{bare_error, ResultModel, TftpResult};
use vstd::prelude::*;

verus! {

/// The token of the timer; no connection gets it.
pub const TIMER: usize = 0;

/// The `i`-th token counted from `start`, wrapping after `usize::MAX`.
pub open spec fn token_at(start: usize, i: int) -> int {
    if start + i <= usize::MAX {
        start + i
    } else {
        start + i - (usize::MAX + 1)
    }
}

/// How many steps from `start` (wrapping) reach `t`.
pub open spec fn token_distance(start: usize, t: usize) -> int {
    if t >= start {
        t - start
    } else {
        t + (usize::MAX + 1) - start
    }
}

/// A token that is the timer's or already in use.
pub open spec fn occupied(used: Seq<usize>, t: int) -> bool {
    t == TIMER || used.contains(t as usize)
}

/// More tokens in a row than there are used tokens (and the timer's) cannot
/// all be occupied.
proof fn lemma_tokens_pigeonhole(start: usize, used: Seq<usize>, k: int)
    requires
        0 <= k <= usize::MAX,
        forall|i: int| 0 <= i < k ==> #[trigger] occupied(used, token_at(start, i)),
    ensures
        k <= used.len() + 1,
{
    let visited = Seq::new(k as nat, |i: int| token_at(start, i) as usize);
    assert(visited.no_duplicates()) by {
        assert forall|i: int, j: int| 0 <= i < visited.len() && 0 <= j < visited.len() && i != j
            implies visited[i] != visited[j] by {
        }
    }
    visited.unique_seq_to_set();
    let occ = used.to_set().insert(TIMER);
    used.lemma_cardinality_of_set();
    vstd::seq_lib::seq_to_set_is_finite(used);
    assert(visited.to_set().subset_of(occ)) by {
        assert forall|t: usize| visited.to_set().contains(t) implies occ.contains(t) by {
            let i = choose|i: int| 0 <= i < visited.len() && visited[i] == t;
            assert(occupied(used, token_at(start, i)));
            if t != TIMER {
                assert(used.contains(t));
                let j = choose|j: int| 0 <= j < used.len() && used[j] == t;
                assert(used.to_set().contains(used[j]));
            }
        }
    }
    vstd::set_lib::lemma_len_subset(visited.to_set(), occ);
}

/// Whether `t` is one of the used tokens.
fn token_in_use(used: &Vec<usize>, t: usize) -> (res: bool)
    ensures
        res == used@.contains(t),
{
    let mut i: usize = 0;
    while i < used.len()
        invariant
            0 <= i <= used@.len(),
            forall|j: int| 0 <= j < i ==> used@[j] != t,
        decreases used@.len() - i,
    {
        if used[i] == t {
            return true;
        }
        i = i + 1;
    }
    false
}

/// Returns a new token: the first one counted from `start` (wrapping) that is
/// neither the timer's nor in `used`.
pub fn generate_token(start: usize, used: &Vec<usize>) -> (res: usize)
    requires
        used@.len() + 1 < usize::MAX,
    ensures
        !occupied(used@, res as int),
        forall|i: int| 0 <= i < token_distance(start, res) ==> occupied(used@, #[trigger] token_at(start, i)),
{
    let mut token = start;
    let ghost mut k: int = 0;
    while token == TIMER || token_in_use(used, token)
        invariant
            used@.len() + 1 < usize::MAX,
            0 <= k <= used@.len() + 1,
            token == token_at(start, k),
            forall|i: int| 0 <= i < k ==> occupied(used@, #[trigger] token_at(start, i)),
        decreases used@.len() + 1 - k,
    {
        proof {
            assert(occupied(used@, token_at(start, k)));
            lemma_tokens_pigeonhole(start, used@, k + 1);
        }
        token = token.wrapping_add(1);
        proof {
            k = k + 1;
        }
    }
    assert(token_distance(start, token) == k);
    token
}

/// The packet that a result carries to the client, if any.
pub open spec fn carried_packet(r: ResultModel) -> Option<PacketModel> {
    match r {
        ResultModel::Reply(p) => Some(p),
        ResultModel::Done(Some(p)) => Some(p),
        _ => None,
    }
}

/// Updates the last packet sent with a result of a connection's transfer and
/// tells whether that packet is to be sent: a `Reply` or a `Done` with a
/// packet replaces it and is sent; `Repeat` sends it again; otherwise nothing
/// is sent.
pub fn reply_for(result: TftpResult, last_packet: &mut Packet) -> (send: bool)
    ensures
        match carried_packet(result@) {
            Some(p) => send && final(last_packet)@ == p,
            None => send == (result@ is Repeat) && final(last_packet)@ == old(last_packet)@,
        },
{
    match result {
        TftpResult::Repeat => true,
        TftpResult::Reply(packet) | TftpResult::Done(Some(packet)) => {
            *last_packet = packet;
            true
        },
        TftpResult::Done(None) | TftpResult::Error(_) => false,
    }
}

/// What a connection answers before its transfer sees a packet: nothing when
/// the packet comes from the connection's client (the transfer handles it),
/// otherwise an `UnknownID` error sent back to the packet's sender.
pub fn stranger_reply<A>(sender: A, from_client: bool) -> (res: Option<(Packet, A)>)
    ensures
        match res {
            Some((p, to)) => !from_client && p@ == bare_error(ErrorCode::UnknownID) && to == sender,
            None => from_client,
        },
{
    if from_client {
        None
    } else {
        Some((Packet::ERROR { code: ErrorCode::UnknownID, msg: String::new() }, sender))
    }
}

/// Increments a block number, wrapping from 65535 to 0.
pub fn incr_block_num(block_num: &mut u16)
    ensures
        *final(block_num) == crate::tftp_proto::next_block(*old(block_num)),
{
    *block_num = block_num.wrapping_add(1);
}

} // verus!
