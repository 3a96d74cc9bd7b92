use vstd::prelude::*;
use crate::layout::{RfidError, AUTH_SECTOR};
use crate::link::{halt_count, lemma_halt_count_append, CardLink, Event};
use crate::rfid::{added, extends, granted, halt_exchange, provisioned_key_a, trailer_exchange, Rfid};

verus! {

/// The outcome of a card presentation.
#[derive(Debug, Clone, Copy, PartialEq, Eq, Structural)]
pub enum Decision {
    Granted,
    Denied,
}

/// The visible and physical side of the terminal: a status display and a
/// door actuator. Each call is fire-and-forget; nothing is assumed of what
/// an implementation does.
pub trait Panel {
    /// Shows the prompt to present a card.
    fn show_idle(&mut self);

    /// Shows that access was granted.
    fn show_granted(&mut self);

    /// Shows that access was denied.
    fn show_denied(&mut self);

    /// Opens the door.
    fn open_door(&mut self);

    /// Closes the door.
    fn close_door(&mut self);

    /// Waits the hold interval that follows a decision.
    fn hold(&mut self);
}

/// One call made on the panel.
pub enum Indication {
    Idle,
    Granted,
    Denied,
    Open,
    Close,
    Hold,
}

/// A panel together with the log of every call made on it.
pub struct Terminal<P: Panel> {
    panel: P,
    log: Ghost<Seq<Indication>>,
}

impl<P: Panel> Terminal<P> {
    /// Every call made on the panel so far, oldest first.
    pub closed spec fn indications(&self) -> Seq<Indication> {
        self.log@
    }

    /// A terminal on which nothing was shown yet.
    pub fn new(panel: P) -> (r: Self)
        ensures
            r.indications() == Seq::<Indication>::empty(),
    {
        Terminal { panel, log: Ghost(Seq::empty()) }
    }

    /// The panel.
    pub fn panel(&self) -> &P {
        &self.panel
    }

    /// Gives the panel back.
    pub fn into_panel(self) -> P {
        self.panel
    }

    fn show(&mut self, what: Indication)
        ensures
            final(self).indications() == old(self).indications().push(what),
    {
        match what {
            Indication::Idle => self.panel.show_idle(),
            Indication::Granted => self.panel.show_granted(),
            Indication::Denied => self.panel.show_denied(),
            Indication::Open => self.panel.open_door(),
            Indication::Close => self.panel.close_door(),
            Indication::Hold => self.panel.hold(),
        }
        self.log = Ghost(self.log@.push(what));
    }
}

/// What a cycle that found a card decided, and how its halt went.
#[derive(Debug, Clone, Copy, PartialEq, Eq)]
pub struct CycleOutcome {
    pub decision: Decision,
    pub halt: Result<(), RfidError>,
}

/// The events `ext` of one poll cycle in which no card was selected.
pub open spec fn idle_cycle(ext: Seq<Event>) -> bool {
    ||| ext =~= seq![Event::Request { answered: false }]
    ||| ext =~= seq![Event::Request { answered: true }, Event::Select { ok: false }]
}

/// The events `ext` of one poll cycle in which a card was selected: the
/// presence request and selection, the check against the provisioned record
/// (its first `n - 2` events), and the halt, whose result is `halt`.
pub open spec fn card_cycle(ext: Seq<Event>, n: int, halt: Result<(), RfidError>) -> bool {
    &&& 3 <= n <= 4
    &&& n <= ext.len()
    &&& ext[0] == Event::Request { answered: true }
    &&& ext[1] == Event::Select { ok: true }
    &&& exists|k: [u8; 6]|
        k@ == provisioned_key_a() && #[trigger] trailer_exchange(AUTH_SECTOR, k, ext.subrange(2, n))
    &&& halt_exchange(ext.subrange(n, ext.len() as int), halt)
}

/// What the panel shows and does in one poll cycle: the prompt, then, when
/// a card was selected, the decision, the door opening on a grant only, and
/// the hold; the door is closed at the end of every cycle.
pub open spec fn cycle_indications(r: Option<CycleOutcome>) -> Seq<Indication> {
    match r {
        None => seq![Indication::Idle, Indication::Close],
        Some(o) => if o.decision == Decision::Granted {
            seq![
                Indication::Idle,
                Indication::Granted,
                Indication::Open,
                Indication::Hold,
                Indication::Close,
            ]
        } else {
            seq![Indication::Idle, Indication::Denied, Indication::Hold, Indication::Close]
        },
    }
}

/// One poll cycle of the terminal: prompt, look for a card and, when one is
/// selected, check it against the provisioned record, show the decision (and
/// open the door on a grant), halt the card, hold, and close the door.
/// A failed halt is reported in the outcome and changes nothing else.
pub fn access_cycle<L: CardLink, P: Panel>(rfid: &mut Rfid<L>, terminal: &mut Terminal<P>) -> (r:
    Option<CycleOutcome>)
    requires
        old(rfid).wf(),
    ensures
        final(terminal).indications() == old(terminal).indications() + cycle_indications(r),
        final(rfid).wf(),
        !final(rfid).is_selected(),
        extends(old(rfid).events(), final(rfid).events()),
        r is None <==> idle_cycle(added(old(rfid).events(), final(rfid).events())),
        r is None ==> halt_count(added(old(rfid).events(), final(rfid).events())) == 0,
        r matches Some(o) ==> {
            let ext = added(old(rfid).events(), final(rfid).events());
            &&& halt_count(ext) == 1
            &&& exists|n: int| #[trigger] card_cycle(ext, n, o.halt)
            &&& o.decision == Decision::Granted <==> granted(ext.subrange(2, 4))
        },
{
    broadcast use vstd::seq_lib::group_seq_properties;
    let ghost t0 = rfid.events();
    let ghost s0 = terminal.indications();
    terminal.show(Indication::Idle);
    if !rfid.select_card() {
        terminal.show(Indication::Close);
        proof {
            let ext = added(t0, rfid.events());
            assert(ext =~= rfid.events().subrange(t0.len() as int, rfid.events().len() as int));
            reveal_with_fuel(halt_count, 3);
            assert(rfid.events().subrange(0, t0.len() as int) =~= t0);
            if ext.len() == 1 {
                assert(ext =~= seq![Event::Request { answered: false }]);
            } else {
                assert(ext =~= seq![Event::Request { answered: true }, Event::Select { ok: false }]);
            }
        }
        assert(terminal.indications() =~= s0 + cycle_indications(None));
        return None;
    }
    let ghost t1 = rfid.events();
    let decision = match rfid.authenticate() {
        Ok(()) => {
            terminal.show(Indication::Granted);
            terminal.show(Indication::Open);
            Decision::Granted
        },
        Err(_) => {
            terminal.show(Indication::Denied);
            Decision::Denied
        },
    };
    let ghost t2 = rfid.events();
    let halt = rfid.halt_state();
    terminal.show(Indication::Hold);
    terminal.show(Indication::Close);
    proof {
        let t3 = rfid.events();
        let sel = added(t0, t1);
        let ver = added(t1, t2);
        let hal = added(t2, t3);
        assert(sel =~= seq![Event::Request { answered: true }, Event::Select { ok: true }]);
        let ext = added(t0, t3);
        assert(ext =~= sel + ver + hal);
        let n: int = 2 + ver.len() as int;
        assert(ext.subrange(2, n) =~= ver);
        assert(ext.subrange(n, ext.len() as int) =~= hal);
        assert forall|i: int| 0 <= i < t0.len() implies t3[i] == t0[i] by {
            assert(t3.subrange(0, t2.len() as int)[i] == t2[i]);
            assert(t2.subrange(0, t1.len() as int)[i] == t1[i]);
            assert(t1.subrange(0, t0.len() as int)[i] == t0[i]);
        }
        assert(t3.subrange(0, t0.len() as int) =~= t0);
        reveal_with_fuel(halt_count, 3);
        assert(halt_count(sel) == 0);
        assert(halt_count(ver) == 0);
        assert(halt_count(hal) == 1);
        lemma_halt_count_append(sel, ver);
        lemma_halt_count_append(sel + ver, hal);
        assert(card_cycle(ext, n, halt));
        if ver.len() == 2 {
            assert(ext.subrange(2, 4) =~= ver);
        } else {
            assert(ext.subrange(2, 4)[1] == hal[0]);
        }
    }
    let r = Some(CycleOutcome { decision, halt });
    assert(terminal.indications() =~= s0 + cycle_indications(r));
    r
}

} // verus!
