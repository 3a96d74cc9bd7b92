use vstd::prelude::*;
use crate::layout::{key_a_of, RfidError, AUTH_SECTOR, SECTOR_TRAILER};
use crate::link::{keeps_writes, write_then_read, CardLink, Event};
use crate::rfid::{added, extends, sector_exchange, write_exchange, Rfid};

verus! {

/// The auth sector as read before and after a credential record was written.
#[derive(Debug, Clone, Copy, PartialEq, Eq)]
pub struct ProvisionReport {
    pub before: [[u8; 16]; 4],
    pub after: [[u8; 16]; 4],
}

/// Key A of a credential record.
pub fn record_key_a(record: &[u8; 16]) -> (r: [u8; 6])
    ensures
        r@ == key_a_of(record@),
{
    let r = [record[0], record[1], record[2], record[3], record[4], record[5]];
    assert(r@ =~= key_a_of(record@));
    r
}

/// `a` is the events of a sector read that succeeded.
pub open spec fn sector_read_ok(key: [u8; 6], a: Seq<Event>) -> bool {
    exists|b: [[u8; 16]; 4]| #[trigger] sector_exchange(AUTH_SECTOR, key, a, Ok(b))
}

/// The events `ext`, cut at `i` and `j`, are those of a provisioning run
/// with the current key `cur` that writes `record`, whose key A is `new_key`:
/// the auth sector read with `cur`, the trailer write, and the sector read
/// again with `new_key`; the first failure ends the run and is its error.
pub open spec fn provision_steps(
    cur: [u8; 6],
    new_key: [u8; 6],
    record: [u8; 16],
    ext: Seq<Event>,
    i: int,
    j: int,
    r: Result<ProvisionReport, RfidError>,
) -> bool {
    let a = ext.subrange(0, i);
    let w = ext.subrange(i, j);
    let b = ext.subrange(j, ext.len() as int);
    &&& 0 <= i <= j <= ext.len()
    &&& match r {
        Ok(rep) => {
            &&& sector_exchange(AUTH_SECTOR, cur, a, Ok(rep.before))
            &&& write_exchange(AUTH_SECTOR, SECTOR_TRAILER, record, cur, w, Ok(()))
            &&& sector_exchange(AUTH_SECTOR, new_key, b, Ok(rep.after))
        },
        Err(e) => {
            ||| sector_exchange(AUTH_SECTOR, cur, a, Err(e)) && i == j == ext.len()
            ||| sector_read_ok(cur, a) && write_exchange(
                AUTH_SECTOR,
                SECTOR_TRAILER,
                record,
                cur,
                w,
                Err(e),
            ) && j == ext.len()
            ||| sector_read_ok(cur, a) && write_exchange(
                AUTH_SECTOR,
                SECTOR_TRAILER,
                record,
                cur,
                w,
                Ok(()),
            ) && sector_exchange(AUTH_SECTOR, new_key, b, Err(e))
        },
    }
}

/// Writes a credential record to the trailer of the auth sector of the
/// selected card: reads the sector with the current key, writes `record`
/// to its trailer with the current key, and reads the sector again with the
/// record's own key A, to confirm the write.
pub fn provision<L: CardLink>(rfid: &mut Rfid<L>, current_key: &[u8; 6], record: &[u8; 16]) -> (r:
    Result<ProvisionReport, RfidError>)
    requires
        old(rfid).wf(),
    ensures
        final(rfid).wf(),
        final(rfid).is_selected() == old(rfid).is_selected(),
        extends(old(rfid).events(), final(rfid).events()),
        !old(rfid).is_selected() ==> r == Err::<ProvisionReport, RfidError>(
            RfidError::CardSelectionFailed,
        ) && final(rfid).events() == old(rfid).events(),
        old(rfid).is_selected() ==> exists|k: [u8; 6], i: int, j: int|
            k@ == key_a_of(record@) && #[trigger] provision_steps(
                *current_key,
                k,
                *record,
                added(old(rfid).events(), final(rfid).events()),
                i,
                j,
                r,
            ),
{
    let ghost t0 = rfid.events();
    let new_key = record_key_a(record);
    let before = match rfid.read_sector(AUTH_SECTOR, current_key) {
        Err(e) => {
            proof {
                let ext = added(t0, rfid.events());
                let n = ext.len() as int;
                assert(ext.subrange(0, n) =~= ext);
                if old(rfid).is_selected() {
                    assert(provision_steps(*current_key, new_key, *record, ext, n, n, Err(e)));
                }
            }
            return Err(e);
        },
        Ok(b) => b,
    };
    let ghost t1 = rfid.events();
    if let Err(e) = rfid.write_block(AUTH_SECTOR, SECTOR_TRAILER, *record, current_key) {
        proof {
            let ext = added(t0, rfid.events());
            let i = t1.len() - t0.len();
            let n = ext.len() as int;
            assert(ext.subrange(0, i) =~= added(t0, t1));
            assert(ext.subrange(i, n) =~= added(t1, rfid.events()));
            assert(sector_exchange(AUTH_SECTOR, *current_key, added(t0, t1), Ok(before)));
            assert(sector_read_ok(*current_key, ext.subrange(0, i)));
            assert(provision_steps(*current_key, new_key, *record, ext, i, n, Err(e)));
            assert(rfid.events().subrange(0, t0.len() as int) =~= t0);
        }
        return Err(e);
    }
    let ghost t2 = rfid.events();
    let r = match rfid.read_sector(AUTH_SECTOR, &new_key) {
        Err(e) => Err(e),
        Ok(after) => Ok(ProvisionReport { before, after }),
    };
    proof {
        let t3 = rfid.events();
        let ext = added(t0, t3);
        let i = t1.len() - t0.len();
        let j = t2.len() - t0.len();
        let n = ext.len() as int;
        assert(ext.subrange(0, i) =~= added(t0, t1));
        assert(ext.subrange(i, j) =~= added(t1, t2));
        assert(ext.subrange(j, n) =~= added(t2, t3));
        assert(sector_exchange(AUTH_SECTOR, *current_key, added(t0, t1), Ok(before)));
        assert(sector_read_ok(*current_key, ext.subrange(0, i)));
        assert(provision_steps(*current_key, new_key, *record, ext, i, j, r));
        assert forall|x: int| 0 <= x < t0.len() implies t3[x] == t0[x] by {
            assert(t3.subrange(0, t2.len() as int)[x] == t2[x]);
            assert(t2.subrange(0, t1.len() as int)[x] == t1[x]);
            assert(t1.subrange(0, t0.len() as int)[x] == t0[x]);
        }
        assert(t3.subrange(0, t0.len() as int) =~= t0);
    }
    r
}

/// Round trip of provisioning: on a card that keeps what was written, a
/// provisioning run that succeeds reads back, with the record's own key A,
/// exactly the record that it wrote to the trailer.
pub proof fn lemma_provisioning_round_trip(
    cur: [u8; 6],
    new_key: [u8; 6],
    record: [u8; 16],
    ext: Seq<Event>,
    i: int,
    j: int,
    rep: ProvisionReport,
)
    requires
        provision_steps(cur, new_key, record, ext, i, j, Ok(rep)),
        keeps_writes(ext),
    ensures
        rep.after[3] == record,
{
    let w = ext.subrange(i, j);
    let b = ext.subrange(j, ext.len() as int);
    assert(w.len() == 2);
    assert(ext[i + 1] == w[1]);
    assert(b.len() == 5);
    assert(b[4] is Read && b[4]->Read_block == 1 * 4 + 4 - 1);
    assert(ext[j + 4] == b[4]);
    assert forall|k: int| i + 1 < k < j + 4 implies !(#[trigger] ext[k] is Write) by {
        assert(ext[k] == b[k - j]);
        if k > j {
            assert(b[k - j] is Read);
        }
    }
    assert(write_then_read(ext, i + 1, j + 4));
    let last: int = 3;
    assert(b[last + 1]->reply == Some(rep.after[last]));
}

} // verus!
