use vstd::prelude::*;
use crate::layout::{key_a_of, key_b_of, RfidError, AUTH_DATA, AUTH_SECTOR, SECTOR_TRAILER};
use crate::link::{auth_state, gated, may_access, CardLink, Event};

verus! {

/// The outcome of a block read as the caller sees it.
pub open spec fn read_result(data: Option<[u8; 16]>) -> Result<[u8; 16], RfidError> {
    match data {
        Some(d) => Ok(d),
        None => Err(RfidError::ReadFailed),
    }
}

/// The events `ext` are those of an exchange that authenticates `sector`
/// with `key` and, when that succeeds, reads the sector's trailer.
pub open spec fn trailer_exchange(sector: u8, key: [u8; 6], ext: Seq<Event>) -> bool {
    ||| ext =~= seq![Event::Auth { block: (sector * 4) as u8, key, ok: false }]
    ||| {
        &&& ext.len() == 2
        &&& ext[0] == Event::Auth { block: (sector * 4) as u8, key, ok: true }
        &&& ext[1] matches Event::Read { block, .. }
        &&& block == sector * 4 + 3
    }
}

/// What a trailer exchange with the events `ext` gives.
pub open spec fn trailer_outcome(ext: Seq<Event>) -> Result<[u8; 16], RfidError> {
    if ext.len() < 2 {
        Err(RfidError::AuthFailed)
    } else {
        match ext[1] {
            Event::Read { reply, .. } => read_result(reply),
            _ => Err(RfidError::Unknown),
        }
    }
}

/// The events `ext` are those of an exchange that authenticates `sector`
/// with `key` and, when that succeeds, reads the sector's blocks in order,
/// stopping at the first failed read; `r` is what it gives.
pub open spec fn sector_exchange(
    sector: u8,
    key: [u8; 6],
    ext: Seq<Event>,
    r: Result<[[u8; 16]; 4], RfidError>,
) -> bool {
    ||| ext =~= seq![Event::Auth { block: (sector * 4) as u8, key, ok: false }] && r
        == Err::<[[u8; 16]; 4], RfidError>(RfidError::AuthFailed)
    ||| {
        &&& 2 <= ext.len() <= 5
        &&& ext[0] == Event::Auth { block: (sector * 4) as u8, key, ok: true }
        &&& forall|i: int|
            1 <= i < ext.len() ==> (#[trigger] ext[i] is Read && ext[i]->Read_block == sector * 4
                + i - 1)
        &&& forall|i: int| 1 <= i < ext.len() - 1 ==> (#[trigger] ext[i])->reply is Some
        &&& match r {
            Ok(blocks) => {
                &&& ext.len() == 5
                &&& ext[4]->reply is Some
                &&& forall|i: int| 0 <= i < 4 ==> (#[trigger] ext[i + 1])->reply == Some(blocks[i])
            },
            Err(e) => e == RfidError::ReadFailed && ext.last()->reply is None,
        }
    }
}

/// The events of an exchange that authenticates `sector` with `key` and then
/// writes `data` to its block `rel`, and the result that it gives.
pub open spec fn write_exchange(
    sector: u8,
    rel: u8,
    data: [u8; 16],
    key: [u8; 6],
    ext: Seq<Event>,
    r: Result<(), RfidError>,
) -> bool {
    ||| ext =~= seq![Event::Auth { block: (sector * 4) as u8, key, ok: false }] && r
        == Err::<(), RfidError>(RfidError::AuthFailed)
    ||| ext.len() == 1 && ext[0] == Event::Auth { block: (sector * 4) as u8, key, ok: true }
        && (sector * 4 + rel) / 4 != sector as int && r == Err::<(), RfidError>(
        RfidError::AuthFailed,
    )
    ||| {
        &&& ext.len() == 2
        &&& ext[0] == Event::Auth { block: (sector * 4) as u8, key, ok: true }
        &&& ext[1] matches Event::Write { block, data: d, ok }
        &&& block == sector * 4 + rel
        &&& d == data
        &&& r == if ok {
            Ok::<(), RfidError>(())
        } else {
            Err(RfidError::WriteFailed)
        }
    }
}

/// The events of a halt, and the result that it gives: the crypto stop is
/// sent only when the halt itself succeeded.
pub open spec fn halt_exchange(ext: Seq<Event>, r: Result<(), RfidError>) -> bool {
    ||| ext =~= seq![Event::Halt { ok: false }] && r == Err::<(), RfidError>(
        RfidError::HaltFailed,
    )
    ||| {
        &&& ext.len() == 2
        &&& ext[0] == Event::Halt { ok: true }
        &&& ext[1] matches Event::StopCrypto { ok }
        &&& r == if ok {
            Ok::<(), RfidError>(())
        } else {
            Err(RfidError::HaltFailed)
        }
    }
}

/// A card session over a card link. It keeps the log of every exchange with
/// the link and lets no read or write reach the link unless the block's
/// sector was authenticated since the last selection, halt or failure.
pub struct Rfid<L: CardLink> {
    link: L,
    selected: bool,
    authed: Option<u8>,
    log: Ghost<Seq<Event>>,
}

/// The events `ext` of a check against the provisioned record grant access:
/// the auth sector was authenticated with the provisioned key A, and the
/// trailer read back holds the provisioned key B.
pub open spec fn granted(ext: Seq<Event>) -> bool {
    &&& ext.len() == 2
    &&& ext[0] matches Event::Auth { block, key, ok }
    &&& block == AUTH_SECTOR * 4
    &&& key@ == provisioned_key_a()
    &&& ok
    &&& ext[1] matches Event::Read { block: b, reply: Some(d) }
    &&& b == AUTH_SECTOR * 4 + 3
    &&& key_b_of(d@) == key_b_of(AUTH_DATA@)
}

/// A trailer was read and holds the key B of `expected`.
pub open spec fn key_b_accepted(outcome: Result<[u8; 16], RfidError>, expected: [u8; 16]) -> bool {
    outcome matches Ok(d) && key_b_of(d@) == key_b_of(expected@)
}

/// The events that `after` holds beyond `before`.
pub open spec fn added(before: Seq<Event>, after: Seq<Event>) -> Seq<Event> {
    after.subrange(before.len() as int, after.len() as int)
}

/// `after` is `before` with events appended.
pub open spec fn extends(before: Seq<Event>, after: Seq<Event>) -> bool {
    before.len() <= after.len() && after.subrange(0, before.len() as int) == before
}

/// Key A of the provisioned credential record.
pub open spec fn provisioned_key_a() -> Seq<u8> {
    key_a_of(AUTH_DATA@)
}

/// Key A of the provisioned credential record.
pub fn auth_key_a() -> (r: [u8; 6])
    ensures
        r@ == provisioned_key_a(),
{
    let r = [AUTH_DATA[0], AUTH_DATA[1], AUTH_DATA[2], AUTH_DATA[3], AUTH_DATA[4], AUTH_DATA[5]];
    assert(r@ =~= provisioned_key_a());
    r
}

/// Whether two trailers hold the same key B.
pub fn key_b_matches(trailer: &[u8; 16], expected: &[u8; 16]) -> (r: bool)
    ensures
        r == (key_b_of(trailer@) == key_b_of(expected@)),
{
    let mut i: usize = 10;
    while i < 16
        invariant
            10 <= i <= 16,
            forall|j: int| 10 <= j < i ==> trailer@[j] == expected@[j],
        decreases 16 - i,
    {
        if trailer[i] != expected[i] {
            assert(key_b_of(trailer@)[i - 10] != key_b_of(expected@)[i - 10]);
            return false;
        }
        i += 1;
    }
    assert(key_b_of(trailer@) =~= key_b_of(expected@));
    true
}

impl<L: CardLink> Rfid<L> {
    /// Every exchange with the link so far, oldest first.
    pub closed spec fn events(&self) -> Seq<Event> {
        self.log@
    }

    /// Whether a card is selected.
    pub closed spec fn is_selected(&self) -> bool {
        self.selected
    }

    /// The sector whose authentication is open, if any.
    pub closed spec fn authed_sector(&self) -> Option<u8> {
        self.authed
    }

    /// The session agrees with its log, and the log is gated.
    pub open spec fn wf(&self) -> bool {
        &&& gated(self.events())
        &&& self.authed_sector() == auth_state(self.events())
        &&& self.authed_sector() is Some ==> self.is_selected()
    }

    /// A session with no card selected.
    pub fn new(link: L) -> (r: Self)
        ensures
            r.wf(),
            r.events() == Seq::<Event>::empty(),
            !r.is_selected(),
    {
        Rfid { link, selected: false, authed: None, log: Ghost(Seq::empty()) }
    }

    /// The card link.
    pub fn link(&self) -> &L {
        &self.link
    }

    /// Gives the card link back.
    pub fn into_link(self) -> L {
        self.link
    }

    /// Whether a card is selected.
    pub fn card_selected(&self) -> (r: bool)
        ensures
            r == self.is_selected(),
    {
        self.selected
    }

    /// Polls for a card: a presence request and, when a card answers, the
    /// settle wait and a selection. `true` when a card is now selected.
    pub fn select_card(&mut self) -> (r: bool)
        requires
            old(self).wf(),
        ensures
            final(self).wf(),
            final(self).is_selected() == r,
            final(self).authed_sector() is None,
            final(self).events() =~= old(self).events() + seq![Event::Request { answered: false }]
                && !r || final(self).events() =~= old(self).events() + seq![
                Event::Request { answered: true },
                Event::Select { ok: r },
            ],
    {
        let answered = self.link.request();
        let ghost t0 = self.log@;
        self.log = Ghost(self.log@.push(Event::Request { answered }));
        assert(self.log@.drop_last() =~= t0);
        assert(gated(self.log@));
        self.authed = None;
        if !answered {
            self.selected = false;
            return false;
        }
        self.link.settle();
        let ok = self.link.select();
        let ghost t1 = self.log@;
        self.log = Ghost(self.log@.push(Event::Select { ok }));
        assert(self.log@.drop_last() =~= t1);
        self.selected = ok;
        ok
    }

    /// Authenticates the sector `sector` with `key`. Without a selected card
    /// nothing is sent and the result is `CardSelectionFailed`.
    pub fn authenticate_sector(&mut self, sector: u8, key: &[u8; 6]) -> (r: Result<(), RfidError>)
        requires
            old(self).wf(),
            sector < 64,
        ensures
            final(self).wf(),
            final(self).is_selected() == old(self).is_selected(),
            !old(self).is_selected() ==> r == Err::<(), RfidError>(RfidError::CardSelectionFailed)
                && final(self).events() == old(self).events(),
            old(self).is_selected() ==> {
                &&& final(self).events().len() == old(self).events().len() + 1
                &&& final(self).events().drop_last() == old(self).events()
                &&& final(self).events().last() matches Event::Auth { block, key: k, ok }
                &&& block == sector * 4
                &&& k == *key
                &&& r == if ok {
                    Ok::<(), RfidError>(())
                } else {
                    Err(RfidError::AuthFailed)
                }
            },
            r is Ok ==> final(self).authed_sector() == Some(sector),
    {
        if !self.selected {
            return Err(RfidError::CardSelectionFailed);
        }
        let block = sector * 4;
        let ok = self.link.authenticate(block, key);
        let ghost e = Event::Auth { block, key: *key, ok };
        self.log = Ghost(self.log@.push(e));
        assert(self.log@.last() == e);
        assert(self.log@.drop_last() =~= old(self).log@);
        if ok {
            self.authed = Some(sector);
            Ok(())
        } else {
            self.authed = None;
            Err(RfidError::AuthFailed)
        }
    }

    /// Reads one block. Unless the block's sector is authenticated, nothing
    /// is sent and the result is `AuthFailed`.
    pub fn read_authenticated(&mut self, block: u8) -> (r: Result<[u8; 16], RfidError>)
        requires
            old(self).wf(),
        ensures
            final(self).wf(),
            final(self).is_selected() == old(self).is_selected(),
            !may_access(old(self).events(), block) ==> r == Err::<[u8; 16], RfidError>(
                RfidError::AuthFailed,
            ) && final(self).events() == old(self).events(),
            may_access(old(self).events(), block) ==> {
                &&& final(self).events().len() == old(self).events().len() + 1
                &&& final(self).events().drop_last() == old(self).events()
                &&& final(self).events().last() matches Event::Read { block: b, reply }
                &&& b == block
                &&& r == read_result(reply)
            },
            final(self).authed_sector() == old(self).authed_sector(),
    {
        if self.authed != Some(block / 4) {
            return Err(RfidError::AuthFailed);
        }
        let data = self.link.read(block);
        let ghost e = Event::Read { block, reply: data };
        self.log = Ghost(self.log@.push(e));
        assert(self.log@.last() == e);
        assert(self.log@.drop_last() =~= old(self).log@);
        match data {
            Some(d) => Ok(d),
            None => Err(RfidError::ReadFailed),
        }
    }

    /// Writes one block. Unless the block's sector is authenticated, nothing
    /// is sent and the result is `AuthFailed`.
    pub fn write_authenticated(&mut self, block: u8, data: [u8; 16]) -> (r: Result<(), RfidError>)
        requires
            old(self).wf(),
        ensures
            final(self).wf(),
            final(self).is_selected() == old(self).is_selected(),
            !may_access(old(self).events(), block) ==> r == Err::<(), RfidError>(
                RfidError::AuthFailed,
            ) && final(self).events() == old(self).events(),
            may_access(old(self).events(), block) ==> {
                &&& final(self).events().len() == old(self).events().len() + 1
                &&& final(self).events().drop_last() == old(self).events()
                &&& final(self).events().last() matches Event::Write { block: b, data: d, ok }
                &&& b == block
                &&& d == data
                &&& r == if ok {
                    Ok::<(), RfidError>(())
                } else {
                    Err(RfidError::WriteFailed)
                }
            },
            final(self).authed_sector() == old(self).authed_sector(),
    {
        if self.authed != Some(block / 4) {
            return Err(RfidError::AuthFailed);
        }
        let ok = self.link.write(block, &data);
        let ghost e = Event::Write { block, data, ok };
        self.log = Ghost(self.log@.push(e));
        assert(self.log@.last() == e);
        assert(self.log@.drop_last() =~= old(self).log@);
        if ok {
            Ok(())
        } else {
            Err(RfidError::WriteFailed)
        }
    }
    /// Authenticates `sector` with `key` and reads its trailer.
    pub fn get_trailer(&mut self, sector: u8, key: &[u8; 6]) -> (r: Result<[u8; 16], RfidError>)
        requires
            old(self).wf(),
            sector < 64,
        ensures
            final(self).wf(),
            final(self).is_selected() == old(self).is_selected(),
            extends(old(self).events(), final(self).events()),
            !old(self).is_selected() ==> r == Err::<[u8; 16], RfidError>(
                RfidError::CardSelectionFailed,
            ) && final(self).events() == old(self).events(),
            old(self).is_selected() ==> trailer_exchange(
                sector,
                *key,
                added(old(self).events(), final(self).events()),
            ) && r == trailer_outcome(added(old(self).events(), final(self).events())),
    {
        let ghost t0 = self.events();
        if let Err(e) = self.authenticate_sector(sector, key) {
            proof {
                if self.events().len() > t0.len() {
                    assert(added(t0, self.events()) =~= seq![self.events().last()]);
                }
                assert(self.events().subrange(0, t0.len() as int) =~= t0);
            }
            return Err(e);
        }
        let ghost t1 = self.events();
        let r = self.read_authenticated(sector * 4 + SECTOR_TRAILER);
        assert(added(t0, self.events()) =~= seq![t1.last(), self.events().last()]);
        assert(self.events().subrange(0, t0.len() as int) =~= t0);
        r
    }

    /// Authenticates `sector` with `key` and writes `data` to its block
    /// `rel_block`.
    pub fn write_block(&mut self, sector: u8, rel_block: u8, data: [u8; 16], key: &[u8; 6]) -> (r:
        Result<(), RfidError>)
        requires
            old(self).wf(),
            sector as int * 4 + rel_block as int <= 255,
        ensures
            final(self).wf(),
            final(self).is_selected() == old(self).is_selected(),
            extends(old(self).events(), final(self).events()),
            !old(self).is_selected() ==> r == Err::<(), RfidError>(RfidError::CardSelectionFailed)
                && final(self).events() == old(self).events(),
            old(self).is_selected() ==> write_exchange(
                sector,
                rel_block,
                data,
                *key,
                added(old(self).events(), final(self).events()),
                r,
            ),
    {
        let ghost t0 = self.events();
        if let Err(e) = self.authenticate_sector(sector, key) {
            proof {
                if self.events().len() > t0.len() {
                    assert(added(t0, self.events()) =~= seq![self.events().last()]);
                }
                assert(self.events().subrange(0, t0.len() as int) =~= t0);
            }
            return Err(e);
        }
        let ghost t1 = self.events();
        let block = sector * 4 + rel_block;
        let r = self.write_authenticated(block, data);
        proof {
            if self.events().len() == t1.len() {
                assert(added(t0, self.events()) =~= seq![t1.last()]);
            } else {
                assert(added(t0, self.events()) =~= seq![t1.last(), self.events().last()]);
            }
            assert(self.events().subrange(0, t0.len() as int) =~= t0);
        }
        r
    }

    /// Checks the presented card against a credential record: authenticates
    /// the auth sector with `key_a`, reads its trailer, and compares the
    /// trailer's key B with that of `expected`. Every failure is `AuthFailed`,
    /// so that a wrong key and a wrong secret look alike.
    pub fn verify(&mut self, key_a: &[u8; 6], expected: &[u8; 16]) -> (r: Result<(), RfidError>)
        requires
            old(self).wf(),
        ensures
            final(self).wf(),
            final(self).is_selected() == old(self).is_selected(),
            extends(old(self).events(), final(self).events()),
            r is Err ==> r == Err::<(), RfidError>(RfidError::AuthFailed),
            !old(self).is_selected() ==> r is Err && final(self).events() == old(self).events(),
            old(self).is_selected() ==> trailer_exchange(
                AUTH_SECTOR,
                *key_a,
                added(old(self).events(), final(self).events()),
            ),
            r is Ok <==> old(self).is_selected() && key_b_accepted(
                trailer_outcome(added(old(self).events(), final(self).events())),
                *expected,
            ),
    {
        match self.get_trailer(AUTH_SECTOR, key_a) {
            Err(_) => Err(RfidError::AuthFailed),
            Ok(d) => {
                if key_b_matches(&d, expected) {
                    Ok(())
                } else {
                    Err(RfidError::AuthFailed)
                }
            },
        }
    }

    /// Checks the presented card against the provisioned credential record.
    pub fn authenticate(&mut self) -> (r: Result<(), RfidError>)
        requires
            old(self).wf(),
        ensures
            final(self).wf(),
            final(self).is_selected() == old(self).is_selected(),
            extends(old(self).events(), final(self).events()),
            r is Err ==> r == Err::<(), RfidError>(RfidError::AuthFailed),
            !old(self).is_selected() ==> r is Err && final(self).events() == old(self).events(),
            old(self).is_selected() ==> exists|k: [u8; 6]|
                k@ == provisioned_key_a() && #[trigger] trailer_exchange(
                    AUTH_SECTOR,
                    k,
                    added(old(self).events(), final(self).events()),
                ),
            r is Ok <==> old(self).is_selected() && granted(
                added(old(self).events(), final(self).events()),
            ),
    {
        let key_a = auth_key_a();
        let r = self.verify(&key_a, &AUTH_DATA);
        proof {
            let ext = added(old(self).events(), self.events());
            if old(self).is_selected() {
                assert(trailer_exchange(AUTH_SECTOR, key_a, ext));
            }
        }
        r
    }

    /// Halts the card and stops its crypto session; the stop is sent only
    /// when the halt succeeded. The session is closed either way.
    pub fn halt_state(&mut self) -> (r: Result<(), RfidError>)
        requires
            old(self).wf(),
        ensures
            final(self).wf(),
            !final(self).is_selected(),
            final(self).authed_sector() is None,
            extends(old(self).events(), final(self).events()),
            halt_exchange(added(old(self).events(), final(self).events()), r),
    {
        let ghost t0 = self.log@;
        let halted = self.link.halt();
        self.log = Ghost(self.log@.push(Event::Halt { ok: halted }));
        assert(self.log@.drop_last() =~= t0);
        self.selected = false;
        self.authed = None;
        if !halted {
            assert(added(t0, self.log@) =~= seq![Event::Halt { ok: false }]);
            assert(self.log@.subrange(0, t0.len() as int) =~= t0);
            return Err(RfidError::HaltFailed);
        }
        assert(gated(self.log@));
        let stopped = self.link.stop_crypto();
        let ghost t1 = self.log@;
        self.log = Ghost(self.log@.push(Event::StopCrypto { ok: stopped }));
        assert(self.log@.drop_last() =~= t1);
        assert(added(t0, self.log@) =~= seq![
            Event::Halt { ok: true },
            Event::StopCrypto { ok: stopped },
        ]);
        assert(self.log@.subrange(0, t0.len() as int) =~= t0);
        if stopped {
            Ok(())
        } else {
            Err(RfidError::HaltFailed)
        }
    }
    /// Authenticates `sector` with `key` once and reads its four blocks in
    /// order; the first failed read ends the exchange.
    pub fn read_sector(&mut self, sector: u8, key: &[u8; 6]) -> (r: Result<[[u8; 16]; 4], RfidError>)
        requires
            old(self).wf(),
            sector < 64,
        ensures
            final(self).wf(),
            final(self).is_selected() == old(self).is_selected(),
            extends(old(self).events(), final(self).events()),
            !old(self).is_selected() ==> r == Err::<[[u8; 16]; 4], RfidError>(
                RfidError::CardSelectionFailed,
            ) && final(self).events() == old(self).events(),
            old(self).is_selected() ==> sector_exchange(
                sector,
                *key,
                added(old(self).events(), final(self).events()),
                r,
            ),
    {
        let ghost t0 = self.events();
        if let Err(e) = self.authenticate_sector(sector, key) {
            proof {
                if self.events().len() > t0.len() {
                    assert(added(t0, self.events()) =~= seq![self.events().last()]);
                }
                assert(self.events().subrange(0, t0.len() as int) =~= t0);
            }
            return Err(e);
        }
        let ghost auth = self.events().last();
        let mut blocks: [[u8; 16]; 4] = [[0u8; 16]; 4];
        let mut i: u8 = 0;
        while i < 4
            invariant
                0 <= i <= 4,
                sector < 64,
                old(self).is_selected(),
                t0 == old(self).events(),
                self.wf(),
                self.is_selected(),
                self.authed_sector() == Some(sector),
                self.events().len() == t0.len() + 1 + i,
                self.events().subrange(0, t0.len() as int) == t0,
                auth == (Event::Auth { block: (sector * 4) as u8, key: *key, ok: true }),
                self.events()[t0.len() as int] == auth,
                forall|j: int|
                    0 <= j < i ==> #[trigger] self.events()[t0.len() + 1 + j] == (Event::Read {
                        block: (sector * 4 + j) as u8,
                        reply: Some(blocks[j]),
                    }),
            decreases 4 - i,
        {
            let ghost before = self.events();
            let ghost blocks0 = blocks;
            match self.read_authenticated(sector * 4 + i) {
                Err(e) => {
                    proof {
                        let ext = added(t0, self.events());
                        assert(ext.len() == i + 2);
                        assert forall|j: int| 1 <= j < ext.len() implies (#[trigger] ext[j] is Read
                            && ext[j]->Read_block == sector * 4 + j - 1) by {
                            assert(ext[j] == self.events()[t0.len() + j]);
                            if j < ext.len() - 1 {
                                assert(self.events()[t0.len() + 1 + (j - 1)] == before[t0.len()
                                    + 1 + (j - 1)]);
                            }
                        }
                        assert forall|j: int| 1 <= j < ext.len() - 1 implies (
                        #[trigger] ext[j])->reply is Some by {
                            assert(ext[j] == self.events()[t0.len() + 1 + (j - 1)]);
                            assert(self.events()[t0.len() + 1 + (j - 1)] == before[t0.len() + 1
                                + (j - 1)]);
                        }
                        assert(ext[0] == self.events()[t0.len() as int]);
                        assert(self.events()[t0.len() as int] == before[t0.len() as int]);
                        assert(self.events().subrange(0, t0.len() as int) =~= t0);
                    }
                    return Err(e);
                },
                Ok(d) => {
                    blocks[i as usize] = d;
                    proof {
                        assert forall|j: int| 0 <= j < i + 1 implies #[trigger] self.events()[t0.len()
                            + 1 + j] == (Event::Read {
                            block: (sector * 4 + j) as u8,
                            reply: Some(blocks[j]),
                        }) by {
                            if j < i {
                                assert(self.events()[t0.len() + 1 + j] == before[t0.len() + 1 + j]);
                                assert(blocks[j] == blocks0[j]);
                            }
                        }
                        assert(self.events()[t0.len() as int] == before[t0.len() as int]);
                        assert(self.events().subrange(0, t0.len() as int) =~= t0);
                    }
                },
            }
            i += 1;
        }
        proof {
            let ext = added(t0, self.events());
            assert(ext.len() == 5);
            assert forall|j: int| 1 <= j < ext.len() implies (#[trigger] ext[j] is Read
                && ext[j]->Read_block == sector * 4 + j - 1) by {
                assert(ext[j] == self.events()[t0.len() + 1 + (j - 1)]);
                assert(self.events()[t0.len() + 1 + (j - 1)] == (Event::Read {
                    block: (sector * 4 + (j - 1)) as u8,
                    reply: Some(blocks[j - 1]),
                }));
            }
            assert forall|j: int| 1 <= j < ext.len() - 1 implies (#[trigger] ext[j])->reply is Some by {
                assert(ext[j] == self.events()[t0.len() + 1 + (j - 1)]);
                assert(self.events()[t0.len() + 1 + (j - 1)] == (Event::Read {
                    block: (sector * 4 + (j - 1)) as u8,
                    reply: Some(blocks[j - 1]),
                }));
            }
            assert forall|j: int| 0 <= j < 4 implies (#[trigger] ext[j + 1])->reply == Some(blocks[j]) by {
                assert(ext[j + 1] == self.events()[t0.len() + 1 + j]);
                assert(self.events()[t0.len() + 1 + j] == (Event::Read {
                    block: (sector * 4 + j) as u8,
                    reply: Some(blocks[j]),
                }));
            }
            assert(self.events()[t0.len() + 1 + 3int] == (Event::Read {
                block: (sector * 4 + 3) as u8,
                reply: Some(blocks[3]),
            }));
            assert(ext[4] == self.events()[t0.len() + 4int]);
            assert(ext[0] == self.events()[t0.len() as int]);
        }
        Ok(blocks)
    }
}

} // verus!
