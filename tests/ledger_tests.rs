use wallet::ledger::WalletData;
use wallet::types::{Identifier, OutputData, OutputStatus};

fn id(b: u8) -> Identifier {
    Identifier([b; 10])
}

fn out(root: u8, key: u8, n_child: u32, value: u64, status: OutputStatus) -> OutputData {
    OutputData {
        root_key_id: id(root),
        key_id: id(key),
        n_child,
        value,
        status,
        height: 1,
        lock_height: 0,
        zero_ok: false,
    }
}

#[test]
fn add_output_inserts_and_overwrites() {
    let mut w = WalletData::new();
    w.add_output(out(1, 10, 1, 5, OutputStatus::Unspent));
    w.add_output(out(1, 11, 2, 6, OutputStatus::Unspent));
    assert_eq!(w.outputs().len(), 2);
    w.add_output(out(1, 10, 1, 9, OutputStatus::Unconfirmed));
    assert_eq!(w.outputs().len(), 2);
    let o = w.get_output(&id(10)).unwrap();
    assert_eq!(o.value, 9);
    assert_eq!(o.status, OutputStatus::Unconfirmed);
    assert!(w.get_output(&id(12)).is_none());
}

#[test]
fn lock_output_with_matching_value_locks() {
    let mut w = WalletData::new();
    w.add_output(out(1, 10, 1, 5, OutputStatus::Unspent));
    w.lock_output(&out(1, 10, 1, 5, OutputStatus::Unspent));
    assert_eq!(w.get_output(&id(10)).unwrap().status, OutputStatus::Locked);
}

#[test]
fn lock_output_with_other_value_changes_nothing() {
    let mut w = WalletData::new();
    w.add_output(out(1, 10, 1, 5, OutputStatus::Unspent));
    w.lock_output(&out(1, 10, 1, 6, OutputStatus::Unspent));
    assert_eq!(w.get_output(&id(10)).unwrap().status, OutputStatus::Unspent);
    w.lock_output(&out(1, 11, 1, 5, OutputStatus::Unspent));
    assert_eq!(w.outputs().len(), 1);
    assert_eq!(w.get_output(&id(10)).unwrap().status, OutputStatus::Unspent);
}

#[test]
fn select_stops_once_amount_is_reached() {
    let mut w = WalletData::new();
    w.add_output(out(1, 10, 1, 5, OutputStatus::Unspent));
    w.add_output(out(2, 11, 1, 100, OutputStatus::Unspent));
    w.add_output(out(1, 12, 2, 7, OutputStatus::Locked));
    w.add_output(out(1, 13, 3, 4, OutputStatus::Unspent));
    w.add_output(out(1, 14, 4, 3, OutputStatus::Unspent));
    let (sel, rem) = w.select(id(1), 8);
    let keys: Vec<Identifier> = sel.iter().map(|o| o.key_id).collect();
    assert!(keys == vec![id(10), id(13)]);
    assert_eq!(rem, 1);
}

#[test]
fn select_exact_match_leaves_zero() {
    let mut w = WalletData::new();
    w.add_output(out(1, 10, 1, 5, OutputStatus::Unspent));
    w.add_output(out(1, 11, 2, 3, OutputStatus::Unspent));
    let (sel, rem) = w.select(id(1), 8);
    assert_eq!(sel.len(), 2);
    assert_eq!(rem, 0);
    let total: u64 = sel.iter().map(|o| o.value).sum();
    assert_eq!(rem, total as i128 - 8);
}

#[test]
fn select_short_of_funds_takes_everything_eligible() {
    let mut w = WalletData::new();
    w.add_output(out(1, 10, 1, 5, OutputStatus::Unspent));
    w.add_output(out(1, 11, 2, 3, OutputStatus::Spent));
    w.add_output(out(1, 12, 3, 4, OutputStatus::Unspent));
    w.add_output(out(3, 13, 1, 50, OutputStatus::Unspent));
    let (sel, rem) = w.select(id(1), 20);
    assert_eq!(sel.len(), 2);
    assert_eq!(sel[0].key_id, id(10));
    assert_eq!(sel[1].key_id, id(12));
    assert_eq!(rem, -11);
}

#[test]
fn select_on_empty_ledger() {
    let w = WalletData::new();
    let (sel, rem) = w.select(id(1), 5);
    assert!(sel.is_empty());
    assert_eq!(rem, -5);
}

#[test]
fn select_remainder_beyond_signed_64_bits() {
    let mut w = WalletData::new();
    w.add_output(out(1, 10, 1, u64::MAX, OutputStatus::Unspent));
    let (sel, rem) = w.select(id(1), 1);
    assert_eq!(sel.len(), 1);
    assert_eq!(rem, u64::MAX as i128 - 1);
    let (_, short) = WalletData::new().select(id(1), u64::MAX);
    assert_eq!(short, -(u64::MAX as i128));
}

#[test]
fn next_child_on_empty_ledger_is_one() {
    let w = WalletData::new();
    assert_eq!(w.next_child(id(1)), 1);
}

#[test]
fn next_child_follows_largest_index() {
    let mut w = WalletData::new();
    w.add_output(out(1, 10, 1, 5, OutputStatus::Unspent));
    w.add_output(out(1, 11, 3, 5, OutputStatus::Spent));
    w.add_output(out(1, 12, 5, 5, OutputStatus::Locked));
    w.add_output(out(2, 13, 40, 5, OutputStatus::Unspent));
    assert_eq!(w.next_child(id(1)), 6);
    assert_eq!(w.next_child(id(2)), 41);
    assert_eq!(w.next_child(id(3)), 1);
}

#[test]
fn ledger_keeps_key_order_whatever_the_insertion_order() {
    let mut a = WalletData::new();
    let mut b = WalletData::new();
    for k in [30u8, 10, 20, 5] {
        a.add_output(out(1, k, k as u32, k as u64, OutputStatus::Unspent));
    }
    for k in [5u8, 20, 30, 10] {
        b.add_output(out(1, k, k as u32, k as u64, OutputStatus::Unspent));
    }
    let ka: Vec<Identifier> = a.outputs().iter().map(|o| o.key_id).collect();
    let kb: Vec<Identifier> = b.outputs().iter().map(|o| o.key_id).collect();
    assert!(ka == vec![id(5), id(10), id(20), id(30)]);
    assert!(ka == kb);
    let (sa, ra) = a.select(id(1), 12);
    let (sb, rb) = b.select(id(1), 12);
    assert_eq!(sa.len(), 2);
    assert_eq!(sa[0].key_id, id(5));
    assert_eq!(sa[1].key_id, id(10));
    assert_eq!(ra, 3);
    assert_eq!(sa.len(), sb.len());
    assert_eq!(ra, rb);
}

#[test]
fn identifier_compare_orders_by_bytes() {
    assert_eq!(id(1).compare(&id(2)), -1);
    assert_eq!(id(2).compare(&id(1)), 1);
    assert_eq!(id(7).compare(&id(7)), 0);
    let mut hi = [0u8; 10];
    hi[0] = 1;
    assert_eq!(Identifier(hi).compare(&Identifier([0, 255, 255, 255, 255, 255, 255, 255, 255, 255])), 1);
}
