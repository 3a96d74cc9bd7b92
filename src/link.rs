use vstd::prelude::*;

verus! {

/// The operations of a contactless-card reader, one call per radio command.
///
/// Nothing is assumed of what an implementation answers: every contract of
/// this library holds whatever the card link replies.
pub trait CardLink {
    /// Sends a presence request; `true` when a card answered.
    fn request(&mut self) -> bool;

    /// Waits the settle interval that the card protocol needs after a
    /// presence answer.
    fn settle(&mut self);

    /// Selects the card that answered; `true` on success.
    fn select(&mut self) -> bool;

    /// Authenticates the sector that starts at `block` with `key`.
    fn authenticate(&mut self, block: u8, key: &[u8; 6]) -> bool;

    /// Reads one block.
    fn read(&mut self, block: u8) -> Option<[u8; 16]>;

    /// Writes one block.
    fn write(&mut self, block: u8, data: &[u8; 16]) -> bool;

    /// Puts the card in the halt state.
    fn halt(&mut self) -> bool;

    /// Stops the card's crypto session.
    fn stop_crypto(&mut self) -> bool;
}

/// One exchange with the card link, with the link's reply.
pub enum Event {
    Request { answered: bool },
    Select { ok: bool },
    Auth { block: u8, key: [u8; 6], ok: bool },
    Read { block: u8, reply: Option<[u8; 16]> },
    Write { block: u8, data: [u8; 16], ok: bool },
    Halt { ok: bool },
    StopCrypto { ok: bool },
}

/// The sector for which the card's crypto session is open after the events
/// `t`: the last successful authentication, unless a failed one, a new
/// presence request or selection, a halt or a crypto stop came after it.
pub open spec fn auth_state(t: Seq<Event>) -> Option<u8>
    decreases t.len(),
{
    if t.len() == 0 {
        None
    } else {
        match t.last() {
            Event::Auth { block, ok, .. } => if ok {
                Some((block / 4) as u8)
            } else {
                None
            },
            Event::Read { .. } => auth_state(t.drop_last()),
            Event::Write { .. } => auth_state(t.drop_last()),
            _ => None,
        }
    }
}

/// Whether the events `t` allow a read or a write of `block` now.
pub open spec fn may_access(t: Seq<Event>, block: u8) -> bool {
    auth_state(t) == Some((block / 4) as u8)
}

/// Every read and write in `t` was issued while its sector was authenticated.
pub open spec fn gated(t: Seq<Event>) -> bool
    decreases t.len(),
{
    if t.len() == 0 {
        true
    } else {
        &&& gated(t.drop_last())
        &&& match t.last() {
            Event::Read { block, .. } => may_access(t.drop_last(), block),
            Event::Write { block, .. } => may_access(t.drop_last(), block),
            _ => true,
        }
    }
}

/// Number of halt commands among the events `t`.
pub open spec fn halt_count(t: Seq<Event>) -> nat
    decreases t.len(),
{
    if t.len() == 0 {
        0
    } else {
        halt_count(t.drop_last()) + if t.last() is Halt {
            1nat
        } else {
            0nat
        }
    }
}

/// Halt count of a concatenation.
pub proof fn lemma_halt_count_append(a: Seq<Event>, b: Seq<Event>)
    ensures
        halt_count(a + b) == halt_count(a) + halt_count(b),
    decreases b.len(),
{
    if b.len() == 0 {
        assert(a + b =~= a);
    } else {
        lemma_halt_count_append(a, b.drop_last());
        assert((a + b).drop_last() =~= a + b.drop_last());
    }
}

/// Authentication is sector-scoped: once a sector has been authenticated,
/// a block of any other sector still may not be read or written.
pub proof fn lemma_authentication_is_sector_scoped(
    t: Seq<Event>,
    sector: u8,
    key: [u8; 6],
    block: u8,
)
    requires
        sector < 64,
        block / 4 != sector,
    ensures
        !may_access(t.push(Event::Auth { block: (sector * 4) as u8, key, ok: true }), block),
        may_access(
            t.push(Event::Auth { block: (sector * 4) as u8, key, ok: true }),
            (sector * 4 + 3) as u8,
        ),
{
    let u = t.push(Event::Auth { block: (sector * 4) as u8, key, ok: true });
    assert(u.last() == Event::Auth { block: (sector * 4) as u8, key, ok: true });
}

/// A successful authentication of the sector that holds `block`.
pub open spec fn opens_sector_of(e: Event, block: u8) -> bool {
    e matches Event::Auth { block: b, ok, .. } && ok && b / 4 == block / 4
}

/// A block may be read or written only after a successful authentication of
/// its own sector: with none in the log, every attempt is refused.
pub proof fn lemma_no_access_without_authentication(t: Seq<Event>, block: u8)
    requires
        forall|i: int| 0 <= i < t.len() ==> !opens_sector_of(#[trigger] t[i], block),
    ensures
        !may_access(t, block),
    decreases t.len(),
{
    if t.len() > 0 {
        let p = t.drop_last();
        assert forall|i: int| 0 <= i < p.len() implies !opens_sector_of(#[trigger] p[i], block) by {
            assert(p[i] == t[i]);
        }
        lemma_no_access_without_authentication(p, block);
        assert(!opens_sector_of(t[t.len() - 1], block));
    }
}

/// Event `i` of `t` is a successful write and event `j` a successful read
/// of the same block, with no write between them.
pub open spec fn write_then_read(t: Seq<Event>, i: int, j: int) -> bool {
    &&& 0 <= i < j < t.len()
    &&& t[i] is Write && t[i]->Write_ok
    &&& t[j] is Read && t[j]->reply is Some
    &&& t[j]->Read_block == t[i]->Write_block
    &&& forall|k: int| i < k < j ==> !(#[trigger] t[k] is Write)
}

/// The card behind the events `t` keeps what was written: a read that
/// follows a write of the same block, with no write between them, returns
/// the bytes written.
pub open spec fn keeps_writes(t: Seq<Event>) -> bool {
    forall|i: int, j: int| #[trigger] write_then_read(t, i, j) ==> t[j]->reply == Some(t[i]->data)
}

} // verus!
