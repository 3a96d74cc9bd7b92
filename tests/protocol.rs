use esp32_rfid_access::{
    auth_key_a, key_b_matches, provision, CardLink, record_key_a, MemoryCard, Rfid, RfidError, AUTH_DATA,
    AUTH_SECTOR, CARD_BLOCKS, DEFAULT_KEY, SECTOR_TRAILER,
};

fn selected(card: MemoryCard) -> Rfid<MemoryCard> {
    let mut rfid = Rfid::new(card);
    assert!(rfid.select_card());
    rfid
}

#[test]
fn provisioning_round_trip() {
    let mut rfid = selected(MemoryCard::blank());
    let report = provision(&mut rfid, &DEFAULT_KEY, &AUTH_DATA).unwrap();
    let blank_trailer = [
        0xFF, 0xFF, 0xFF, 0xFF, 0xFF, 0xFF, 0xFF, 0x07, 0x80, 0x69, 0xFF, 0xFF, 0xFF, 0xFF, 0xFF,
        0xFF,
    ];
    assert_eq!(report.before, [[0; 16], [0; 16], [0; 16], blank_trailer]);
    assert_eq!(report.after, [[0; 16], [0; 16], [0; 16], AUTH_DATA]);
    let new_key = record_key_a(&AUTH_DATA);
    assert_eq!(rfid.get_trailer(AUTH_SECTOR, &new_key), Ok(AUTH_DATA));
    assert_eq!(rfid.authenticate(), Ok(()));
}

#[test]
fn provisioning_with_a_wrong_current_key_fails() {
    let mut card = MemoryCard::blank();
    card.set_block(7, AUTH_DATA);
    let mut rfid = selected(card);
    assert_eq!(provision(&mut rfid, &DEFAULT_KEY, &AUTH_DATA), Err(RfidError::AuthFailed));
}

#[test]
fn provisioning_needs_a_selected_card() {
    let mut rfid = Rfid::new(MemoryCard::blank());
    assert_eq!(
        provision(&mut rfid, &DEFAULT_KEY, &AUTH_DATA),
        Err(RfidError::CardSelectionFailed)
    );
}

#[test]
fn read_without_authentication_is_refused() {
    let mut card = MemoryCard::blank();
    card.set_block(4, [7; 16]);
    let mut rfid = selected(card);
    assert_eq!(rfid.read_authenticated(4), Err(RfidError::AuthFailed));
    assert_eq!(rfid.write_authenticated(5, [9; 16]), Err(RfidError::AuthFailed));
    assert_eq!(rfid.link().block(5), Some([0; 16]));
}

#[test]
fn authentication_is_sector_scoped() {
    let mut rfid = selected(MemoryCard::blank());
    assert_eq!(rfid.authenticate_sector(1, &DEFAULT_KEY), Ok(()));
    assert_eq!(rfid.read_authenticated(8), Err(RfidError::AuthFailed));
    assert_eq!(rfid.write_authenticated(3, [1; 16]), Err(RfidError::AuthFailed));
    assert_eq!(rfid.read_authenticated(4), Ok([0; 16]));
    assert_eq!(rfid.write_authenticated(5, [1; 16]), Ok(()));
    assert_eq!(rfid.link().block(5), Some([1; 16]));
}

#[test]
fn failed_authentication_closes_the_sector() {
    let mut rfid = selected(MemoryCard::blank());
    assert_eq!(rfid.authenticate_sector(1, &DEFAULT_KEY), Ok(()));
    assert_eq!(rfid.authenticate_sector(1, b"Rusted"), Err(RfidError::AuthFailed));
    assert_eq!(rfid.read_authenticated(4), Err(RfidError::AuthFailed));
}

#[test]
fn halt_closes_the_session() {
    let mut rfid = selected(MemoryCard::blank());
    assert_eq!(rfid.authenticate_sector(1, &DEFAULT_KEY), Ok(()));
    assert_eq!(rfid.halt_state(), Ok(()));
    assert!(!rfid.card_selected());
    assert_eq!(rfid.read_authenticated(4), Err(RfidError::AuthFailed));
    assert_eq!(rfid.authenticate_sector(1, &DEFAULT_KEY), Err(RfidError::CardSelectionFailed));
}

#[test]
fn halt_of_a_removed_card_fails() {
    let mut card = MemoryCard::blank();
    card.remove();
    let mut rfid = Rfid::new(card);
    assert_eq!(rfid.halt_state(), Err(RfidError::HaltFailed));
}

#[test]
fn write_block_outcomes() {
    let mut rfid = Rfid::new(MemoryCard::blank());
    assert_eq!(
        rfid.write_block(2, 0, [5; 16], &DEFAULT_KEY),
        Err(RfidError::CardSelectionFailed)
    );
    assert!(rfid.select_card());
    assert_eq!(rfid.write_block(2, 0, [5; 16], b"Rusted"), Err(RfidError::AuthFailed));
    assert_eq!(rfid.write_block(2, 4, [5; 16], &DEFAULT_KEY), Err(RfidError::AuthFailed));
    assert_eq!(rfid.link().block(12), Some([0; 16]));
    assert_eq!(rfid.write_block(2, 1, [5; 16], &DEFAULT_KEY), Ok(()));
    assert_eq!(rfid.link().block(9), Some([5; 16]));
}

#[test]
fn write_to_a_missing_block_fails() {
    let mut rfid = selected(MemoryCard::blank());
    assert_eq!(rfid.write_block(16, 0, [5; 16], &DEFAULT_KEY), Err(RfidError::AuthFailed));
}

#[test]
fn read_sector_returns_blocks_in_order() {
    let mut card = MemoryCard::blank();
    card.set_block(8, [1; 16]);
    card.set_block(9, [2; 16]);
    card.set_block(10, [3; 16]);
    let mut rfid = selected(card);
    let blocks = rfid.read_sector(2, &DEFAULT_KEY).unwrap();
    assert_eq!(blocks[0], [1; 16]);
    assert_eq!(blocks[1], [2; 16]);
    assert_eq!(blocks[2], [3; 16]);
    assert_eq!(blocks[3], rfid.link().block(11).unwrap());
    assert_eq!(rfid.read_sector(2, b"Rusted"), Err(RfidError::AuthFailed));
}

/// A card whose block `bad` cannot be read.
struct Scratched {
    card: MemoryCard,
    bad: u8,
}

impl CardLink for Scratched {
    fn request(&mut self) -> bool {
        self.card.request()
    }
    fn settle(&mut self) {}
    fn select(&mut self) -> bool {
        self.card.select()
    }
    fn authenticate(&mut self, block: u8, key: &[u8; 6]) -> bool {
        self.card.authenticate(block, key)
    }
    fn read(&mut self, block: u8) -> Option<[u8; 16]> {
        if block == self.bad {
            None
        } else {
            self.card.read(block)
        }
    }
    fn write(&mut self, block: u8, data: &[u8; 16]) -> bool {
        self.card.write(block, data)
    }
    fn halt(&mut self) -> bool {
        self.card.halt()
    }
    fn stop_crypto(&mut self) -> bool {
        self.card.stop_crypto()
    }
}

#[test]
fn read_failure_is_read_failed() {
    let mut rfid = Rfid::new(Scratched { card: MemoryCard::blank(), bad: 9 });
    assert!(rfid.select_card());
    assert_eq!(rfid.read_sector(2, &DEFAULT_KEY), Err(RfidError::ReadFailed));
    assert_eq!(rfid.read_sector(1, &DEFAULT_KEY).map(|b| b[3][7]), Ok(0x07));
}

#[test]
fn unreadable_trailer_is_denied_as_auth_failure() {
    let mut card = MemoryCard::blank();
    card.set_block(7, AUTH_DATA);
    let mut rfid = Rfid::new(Scratched { card, bad: 7 });
    assert!(rfid.select_card());
    assert_eq!(rfid.get_trailer(1, b"Rusted"), Err(RfidError::ReadFailed));
    assert_eq!(rfid.authenticate(), Err(RfidError::AuthFailed));
}

#[test]
fn trailer_of_blank_card() {
    let mut rfid = selected(MemoryCard::blank());
    let t = rfid.get_trailer(0, &DEFAULT_KEY).unwrap();
    assert_eq!(&t[0..6], &DEFAULT_KEY);
    assert_eq!(&t[6..10], &[0xFF, 0x07, 0x80, 0x69]);
    assert_eq!(rfid.link().block(64), None);
    assert_eq!(CARD_BLOCKS, 64);
}

#[test]
fn verify_with_an_arbitrary_record() {
    let record: [u8; 16] = [1, 2, 3, 4, 5, 6, 0xFF, 0x07, 0x80, 0x69, 9, 8, 7, 6, 5, 4];
    let mut card = MemoryCard::blank();
    card.set_block(AUTH_SECTOR * 4 + SECTOR_TRAILER, record);
    let mut rfid = selected(card);
    assert_eq!(rfid.verify(&[1, 2, 3, 4, 5, 6], &record), Ok(()));
    assert_eq!(rfid.verify(&[1, 2, 3, 4, 5, 7], &record), Err(RfidError::AuthFailed));
    assert_eq!(rfid.verify(&[1, 2, 3, 4, 5, 6], &AUTH_DATA), Err(RfidError::AuthFailed));
}

#[test]
fn keys_of_the_credential_record() {
    assert_eq!(&auth_key_a(), b"Rusted");
    assert_eq!(&record_key_a(&AUTH_DATA), b"Rusted");
    assert_eq!(&AUTH_DATA[10..16], b"Ferris");
    assert!(key_b_matches(&AUTH_DATA, &AUTH_DATA));
    let mut other = AUTH_DATA;
    other[15] = 0;
    assert!(!key_b_matches(&other, &AUTH_DATA));
    other = AUTH_DATA;
    other[0] = 0;
    assert!(key_b_matches(&other, &AUTH_DATA));
}

#[test]
fn error_messages() {
    assert_eq!(RfidError::AuthFailed.message(), "Authentication failed");
    assert_eq!(RfidError::WriteFailed.message(), "Write operation failed");
    assert_eq!(RfidError::ReadFailed.message(), "Read operation failed");
    assert_eq!(RfidError::CardSelectionFailed.message(), "Card selection failed");
    assert_eq!(RfidError::HaltFailed.message(), "Halt failed");
    assert_eq!(RfidError::Unknown.message(), "Unknown error");
}
