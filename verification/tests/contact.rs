use elma_physics::contact::{Contact, Found, Keep, Slot};

#[test]
fn scan_keeps_first_merges_near_and_stops_at_second() {
    let (found, keep) = Found::Nothing.offer(false);
    assert_eq!((found, keep), (Found::One, Keep::AsFirst));
    let (found, keep) = Found::Nothing.offer(true);
    assert_eq!((found, keep), (Found::One, Keep::AsFirst));
    let (found, keep) = Found::One.offer(false);
    assert_eq!((found, keep), (Found::One, Keep::Merged));
    let (found, keep) = Found::One.offer(true);
    assert_eq!((found, keep), (Found::Two, Keep::AsSecond));
}

#[test]
fn scan_proposes_by_count() {
    assert_eq!(Found::Nothing.proposal(), Contact::Free);
    assert_eq!(Found::One.proposal(), Contact::Single(Slot::First));
    assert_eq!(Found::Two.proposal(), Contact::Double);
}

#[test]
fn arbitration_drops_the_failing_contact() {
    assert_eq!(Contact::arbitrate(true, true), Contact::Double);
    assert_eq!(Contact::arbitrate(true, false), Contact::Single(Slot::First));
    assert_eq!(Contact::arbitrate(false, true), Contact::Single(Slot::Second));
    assert_eq!(Contact::arbitrate(false, false), Contact::Single(Slot::Second));
}

#[test]
fn double_contact_needs_both_accepted() {
    assert_eq!(Contact::Double.resolve(true, true), Contact::Double);
    assert_eq!(Contact::Double.resolve(true, false), Contact::Single(Slot::First));
    assert_eq!(Contact::Double.resolve(false, true), Contact::Single(Slot::Second));
    assert_eq!(Contact::Double.resolve(false, false), Contact::Free);
    assert!(Contact::Double.resolve(true, true).is_pinned());
    assert!(!Contact::Double.resolve(true, false).is_pinned());
}

#[test]
fn single_contact_looks_at_its_own_slot() {
    let first = Contact::Single(Slot::First);
    assert_eq!(first.resolve(true, false), first);
    assert_eq!(first.resolve(false, true), Contact::Free);
    let second = Contact::Single(Slot::Second);
    assert_eq!(second.resolve(false, true), second);
    assert_eq!(second.resolve(true, false), Contact::Free);
    assert_eq!(Contact::Free.resolve(true, true), Contact::Free);
    assert!(!first.is_pinned());
    assert!(!Contact::Free.is_pinned());
}

#[test]
fn resting_wheel_keeps_its_single_contact() {
    let (found, keep) = Found::Nothing.offer(false);
    assert_eq!(keep, Keep::AsFirst);
    let proposal = found.proposal();
    assert_eq!(proposal.resolve(true, false), Contact::Single(Slot::First));
}

#[test]
fn proposal_asks_the_contacts_it_involves() {
    assert!(Contact::Double.asks(Slot::First));
    assert!(Contact::Double.asks(Slot::Second));
    assert!(Contact::Single(Slot::First).asks(Slot::First));
    assert!(!Contact::Single(Slot::First).asks(Slot::Second));
    assert!(Contact::Single(Slot::Second).asks(Slot::Second));
    assert!(!Contact::Single(Slot::Second).asks(Slot::First));
    assert!(!Contact::Free.asks(Slot::First));
    assert!(!Contact::Free.asks(Slot::Second));
}
