use esp32_rfid_access::{
    access_cycle, CardLink, Decision, MemoryCard, Panel, Rfid, RfidError, Terminal, AUTH_DATA,
};

#[derive(Default)]
struct Recorder {
    shown: Vec<&'static str>,
}

impl Panel for Recorder {
    fn show_idle(&mut self) {
        self.shown.push("idle");
    }
    fn show_granted(&mut self) {
        self.shown.push("granted");
    }
    fn show_denied(&mut self) {
        self.shown.push("denied");
    }
    fn open_door(&mut self) {
        self.shown.push("open");
    }
    fn close_door(&mut self) {
        self.shown.push("close");
    }
    fn hold(&mut self) {
        self.shown.push("hold");
    }
}

/// A card link over an in-memory card that counts halts and can take the
/// card away right after it was selected.
struct Watched {
    card: MemoryCard,
    halts: u32,
    remove_after_select: bool,
}

impl CardLink for Watched {
    fn request(&mut self) -> bool {
        self.card.request()
    }
    fn settle(&mut self) {
        self.card.settle()
    }
    fn select(&mut self) -> bool {
        let ok = self.card.select();
        if self.remove_after_select {
            self.card.remove();
        }
        ok
    }
    fn authenticate(&mut self, block: u8, key: &[u8; 6]) -> bool {
        self.card.authenticate(block, key)
    }
    fn read(&mut self, block: u8) -> Option<[u8; 16]> {
        self.card.read(block)
    }
    fn write(&mut self, block: u8, data: &[u8; 16]) -> bool {
        self.card.write(block, data)
    }
    fn halt(&mut self) -> bool {
        self.halts += 1;
        self.card.halt()
    }
    fn stop_crypto(&mut self) -> bool {
        self.card.stop_crypto()
    }
}

fn card_with_trailer(trailer: [u8; 16]) -> MemoryCard {
    let mut card = MemoryCard::blank();
    card.set_block(7, trailer);
    card
}

fn watched(card: MemoryCard) -> Rfid<Watched> {
    Rfid::new(Watched { card, halts: 0, remove_after_select: false })
}

#[test]
fn provisioned_card_is_granted() {
    let mut rfid = watched(card_with_trailer(AUTH_DATA));
    let mut panel = Terminal::new(Recorder::default());
    let out = access_cycle(&mut rfid, &mut panel).unwrap();
    assert_eq!(out.decision, Decision::Granted);
    assert_eq!(out.halt, Ok(()));
    assert_eq!(panel.panel().shown, vec!["idle", "granted", "open", "hold", "close"]);
    assert_eq!(rfid.link().halts, 1);
    assert!(!rfid.card_selected());
}

#[test]
fn wrong_key_b_is_denied() {
    let mut trailer = AUTH_DATA;
    trailer[10..16].copy_from_slice(b"Wrong!");
    let mut rfid = watched(card_with_trailer(trailer));
    let mut panel = Terminal::new(Recorder::default());
    let out = access_cycle(&mut rfid, &mut panel).unwrap();
    assert_eq!(out.decision, Decision::Denied);
    assert_eq!(panel.panel().shown, vec!["idle", "denied", "hold", "close"]);
    assert_eq!(rfid.link().halts, 1);
}

#[test]
fn wrong_key_b_fails_verification_after_authentication() {
    let mut trailer = AUTH_DATA;
    trailer[10..16].copy_from_slice(b"Wrong!");
    let mut rfid = Rfid::new(card_with_trailer(trailer));
    assert!(rfid.select_card());
    let key_a: [u8; 6] = *b"Rusted";
    assert_eq!(rfid.get_trailer(1, &key_a), Ok(trailer));
    assert_eq!(rfid.authenticate(), Err(RfidError::AuthFailed));
}

#[test]
fn factory_key_card_is_denied() {
    let mut rfid = watched(MemoryCard::blank());
    let mut panel = Terminal::new(Recorder::default());
    let out = access_cycle(&mut rfid, &mut panel).unwrap();
    assert_eq!(out.decision, Decision::Denied);
    assert_eq!(out.halt, Ok(()));
    assert_eq!(rfid.link().halts, 1);
}

#[test]
fn card_removed_after_select_is_denied_and_halted() {
    let mut rfid = Rfid::new(Watched {
        card: card_with_trailer(AUTH_DATA),
        halts: 0,
        remove_after_select: true,
    });
    let mut panel = Terminal::new(Recorder::default());
    let out = access_cycle(&mut rfid, &mut panel).unwrap();
    assert_eq!(out.decision, Decision::Denied);
    assert_eq!(out.halt, Err(RfidError::HaltFailed));
    assert_eq!(rfid.link().halts, 1);
    assert_eq!(panel.panel().shown, vec!["idle", "denied", "hold", "close"]);
}

#[test]
fn no_card_leaves_the_terminal_idle() {
    let mut card = card_with_trailer(AUTH_DATA);
    card.remove();
    let mut rfid = watched(card);
    let mut panel = Terminal::new(Recorder::default());
    assert_eq!(access_cycle(&mut rfid, &mut panel), None);
    assert_eq!(panel.panel().shown, vec!["idle", "close"]);
    assert_eq!(rfid.link().halts, 0);
}

#[test]
fn each_cycle_with_a_card_halts_once() {
    let mut rfid = watched(card_with_trailer(AUTH_DATA));
    let mut panel = Terminal::new(Recorder::default());
    for n in 1..=3u32 {
        let out = access_cycle(&mut rfid, &mut panel).unwrap();
        assert_eq!(out.decision, Decision::Granted);
        assert_eq!(rfid.link().halts, n);
    }
}
