use rentars::rental::{
    check_transition, Booking, BookingStatus, Property, RentarsContract, RentarsError,
    TransitionRejection,
};

fn b(s: &str) -> Vec<u8> {
    s.as_bytes().to_vec()
}

fn contract_with_property(price: i128) -> RentarsContract {
    let mut c = RentarsContract::new();
    let id = c.list_property(b("GOWNER"), b("Cozy Beach House"), price);
    assert_eq!(id, 1);
    c
}

#[test]
fn list_property_assigns_sequential_ids() {
    let mut c = RentarsContract::new();
    assert_eq!(c.property_count(), 0);
    let id1 = c.list_property(b("GA"), b("House A"), 100);
    let id2 = c.list_property(b("GB"), b("House B"), 200);
    assert_eq!(id1, 1);
    assert_eq!(id2, 2);
    assert_eq!(c.property_count(), 2);
    let p = c.get_property(2).unwrap();
    assert_eq!(p.id, 2);
    assert_eq!(p.owner, b("GB"));
    assert_eq!(p.title, b("House B"));
    assert_eq!(p.price_per_night, 200);
    assert!(p.available);
}

#[test]
fn get_property_missing_is_none() {
    let c = contract_with_property(100);
    assert!(c.get_property(0).is_none());
    assert!(c.get_property(2).is_none());
    assert!(c.get_property(u64::MAX).is_none());
}

#[test]
fn book_property_success_fills_the_booking() {
    let mut c = contract_with_property(100_0000000);
    let id = c.book_property(b("GTENANT"), 1, 1_000, 1_007).unwrap();
    assert_eq!(id, 1);
    assert_eq!(c.booking_count(), 1);
    let bk = c.get_booking(1).unwrap();
    assert_eq!(bk.id, 1);
    assert_eq!(bk.property_id, 1);
    assert_eq!(bk.tenant, b("GTENANT"));
    assert_eq!(bk.check_in, 1_000);
    assert_eq!(bk.check_out, 1_007);
    assert_eq!(bk.total_amount, 700_0000000);
    assert_eq!(bk.status, BookingStatus::Pending);
    assert_eq!(bk.escrow_id, None);
    assert!(!c.get_property(1).unwrap().available);
}

#[test]
fn book_missing_property_is_refused() {
    let mut c = contract_with_property(100);
    assert_eq!(c.book_property(b("GT"), 9999, 1_000, 1_007), Err(RentarsError::PropertyNotFound));
    assert_eq!(c.book_property(b("GT"), 0, 1_000, 1_007), Err(RentarsError::PropertyNotFound));
    assert_eq!(c.booking_count(), 0);
}

#[test]
fn booked_property_cannot_be_booked_again() {
    let mut c = contract_with_property(100);
    assert_eq!(c.book_property(b("GA"), 1, 5_000, 5_010), Ok(1));
    assert_eq!(c.book_property(b("GB"), 1, 6_000, 6_010), Err(RentarsError::PropertyNotAvailable));
    assert_eq!(c.booking_count(), 1);
}

#[test]
fn availability_is_checked_before_dates() {
    let mut c = contract_with_property(100);
    c.book_property(b("GA"), 1, 5_000, 5_010).unwrap();
    assert_eq!(c.book_property(b("GB"), 1, 10, 5), Err(RentarsError::PropertyNotAvailable));
}

#[test]
fn check_out_must_be_after_check_in() {
    let mut c = contract_with_property(100);
    assert_eq!(c.book_property(b("GT"), 1, 1_000, 1_000), Err(RentarsError::InvalidDates));
    assert_eq!(c.book_property(b("GT"), 1, 2_000, 1_000), Err(RentarsError::InvalidDates));
    assert_eq!(c.book_property(b("GT"), 1, u64::MAX, 0), Err(RentarsError::InvalidDates));
    assert!(c.get_property(1).unwrap().available);
}

#[test]
fn one_night_from_epoch_start() {
    let mut c = contract_with_property(1);
    let id = c.book_property(b("GT"), 1, 0, 1).unwrap();
    let bk = c.get_booking(id).unwrap();
    assert_eq!(bk.check_in, 0);
    assert_eq!(bk.check_out - bk.check_in, 1);
    assert_eq!(bk.total_amount, 1);
}

#[test]
fn amount_overflow_is_refused() {
    let mut c = contract_with_property(i128::MAX);
    assert_eq!(c.book_property(b("GT"), 1, 1_000, 1_002), Err(RentarsError::AmountOverflow));
    assert!(c.get_property(1).unwrap().available);
    assert_eq!(c.book_property(b("GT"), 1, 1_000, 1_001), Ok(1));
    assert_eq!(c.get_booking(1).unwrap().total_amount, i128::MAX);
}

#[test]
fn negative_price_gives_negative_amount() {
    let mut c = contract_with_property(-5);
    c.book_property(b("GT"), 1, 10, 13).unwrap();
    assert_eq!(c.get_booking(1).unwrap().total_amount, -15);
}

#[test]
fn pending_confirmed_completed() {
    let mut c = contract_with_property(100);
    c.book_property(b("GT"), 1, 1_000, 1_005).unwrap();
    assert_eq!(c.update_status(1, BookingStatus::Confirmed), Ok(()));
    assert_eq!(c.get_booking(1).unwrap().status, BookingStatus::Confirmed);
    assert_eq!(c.update_status(1, BookingStatus::Completed), Ok(()));
    assert_eq!(c.get_booking(1).unwrap().status, BookingStatus::Completed);
    assert!(!c.get_property(1).unwrap().available);
}

#[test]
fn cancelling_releases_the_property() {
    let mut c = contract_with_property(100);
    c.book_property(b("GT"), 1, 1_000, 1_005).unwrap();
    assert_eq!(c.update_status(1, BookingStatus::Cancelled), Ok(()));
    assert_eq!(c.get_booking(1).unwrap().status, BookingStatus::Cancelled);
    assert!(c.get_property(1).unwrap().available);
    assert_eq!(c.book_property(b("GU"), 1, 2_000, 2_005), Ok(2));
    assert_eq!(c.booking_count(), 2);
}

#[test]
fn cancelling_after_confirmation_releases_the_property() {
    let mut c = contract_with_property(100);
    c.book_property(b("GT"), 1, 1_000, 1_005).unwrap();
    c.update_status(1, BookingStatus::Confirmed).unwrap();
    assert_eq!(c.update_status(1, BookingStatus::Cancelled), Ok(()));
    assert!(c.get_property(1).unwrap().available);
}

#[test]
fn refused_transitions_name_the_reason() {
    let mut c = contract_with_property(100);
    c.book_property(b("GT"), 1, 1_000, 1_005).unwrap();
    assert_eq!(
        c.update_status(1, BookingStatus::Completed),
        Err(RentarsError::InvalidTransition(TransitionRejection::NotYetConfirmed))
    );
    assert_eq!(
        c.update_status(1, BookingStatus::Pending),
        Err(RentarsError::InvalidTransition(TransitionRejection::AlreadyPending))
    );
    c.update_status(1, BookingStatus::Confirmed).unwrap();
    assert_eq!(
        c.update_status(1, BookingStatus::Pending),
        Err(RentarsError::InvalidTransition(TransitionRejection::RevertToPending))
    );
    assert_eq!(
        c.update_status(1, BookingStatus::Confirmed),
        Err(RentarsError::InvalidTransition(TransitionRejection::AlreadyConfirmed))
    );
    c.update_status(1, BookingStatus::Completed).unwrap();
    assert_eq!(
        c.update_status(1, BookingStatus::Cancelled),
        Err(RentarsError::InvalidTransition(TransitionRejection::AlreadyCompleted))
    );
    assert_eq!(c.get_booking(1).unwrap().status, BookingStatus::Completed);
}

#[test]
fn cancelled_is_terminal() {
    let mut c = contract_with_property(100);
    c.book_property(b("GT"), 1, 1_000, 1_005).unwrap();
    c.update_status(1, BookingStatus::Cancelled).unwrap();
    for to in [
        BookingStatus::Pending,
        BookingStatus::Confirmed,
        BookingStatus::Completed,
        BookingStatus::Cancelled,
    ] {
        assert_eq!(
            c.update_status(1, to),
            Err(RentarsError::InvalidTransition(TransitionRejection::AlreadyCancelled))
        );
    }
    assert_eq!(c.get_booking(1).unwrap().status, BookingStatus::Cancelled);
}

#[test]
fn update_status_of_missing_booking() {
    let mut c = contract_with_property(100);
    assert_eq!(c.update_status(1, BookingStatus::Confirmed), Err(RentarsError::BookingNotFound));
    assert_eq!(c.update_status(0, BookingStatus::Confirmed), Err(RentarsError::BookingNotFound));
}

#[test]
fn transition_table() {
    let all = [BookingStatus::Pending, BookingStatus::Confirmed, BookingStatus::Completed, BookingStatus::Cancelled];
    let mut accepted = 0;
    for from in all {
        for to in all {
            if check_transition(from, to).is_ok() {
                accepted += 1;
            }
        }
    }
    assert_eq!(accepted, 4);
    assert_eq!(check_transition(BookingStatus::Pending, BookingStatus::Confirmed), Ok(()));
    assert_eq!(check_transition(BookingStatus::Pending, BookingStatus::Cancelled), Ok(()));
    assert_eq!(check_transition(BookingStatus::Confirmed, BookingStatus::Completed), Ok(()));
    assert_eq!(check_transition(BookingStatus::Confirmed, BookingStatus::Cancelled), Ok(()));
    assert_eq!(
        check_transition(BookingStatus::Completed, BookingStatus::Pending),
        Err(TransitionRejection::AlreadyCompleted)
    );
    assert_eq!(
        check_transition(BookingStatus::Cancelled, BookingStatus::Confirmed),
        Err(TransitionRejection::AlreadyCancelled)
    );
}

#[test]
fn escrow_id_is_set_and_overwritten() {
    let mut c = contract_with_property(100);
    c.book_property(b("GT"), 1, 1_000, 1_005).unwrap();
    assert_eq!(c.set_escrow_id(1, b("first-escrow"), b("GT")), Ok(()));
    assert_eq!(c.get_booking(1).unwrap().escrow_id, Some(b("first-escrow")));
    c.update_status(1, BookingStatus::Confirmed).unwrap();
    assert_eq!(c.set_escrow_id(1, b("second-escrow"), b("GOWNER")), Ok(()));
    let bk = c.get_booking(1).unwrap();
    assert_eq!(bk.escrow_id, Some(b("second-escrow")));
    assert_eq!(bk.status, BookingStatus::Confirmed);
}

#[test]
fn escrow_id_refused_on_closed_bookings() {
    let mut c = RentarsContract::new();
    c.list_property(b("GA"), b("A"), 100);
    c.list_property(b("GB"), b("B"), 100);
    c.book_property(b("GT"), 1, 1_000, 1_005).unwrap();
    c.book_property(b("GT"), 2, 1_000, 1_005).unwrap();
    c.update_status(1, BookingStatus::Confirmed).unwrap();
    c.update_status(1, BookingStatus::Completed).unwrap();
    c.update_status(2, BookingStatus::Cancelled).unwrap();
    assert_eq!(
        c.set_escrow_id(1, b("escrow"), b("GT")),
        Err(RentarsError::BookingClosed(BookingStatus::Completed))
    );
    assert_eq!(
        c.set_escrow_id(2, b("escrow"), b("GB")),
        Err(RentarsError::BookingClosed(BookingStatus::Cancelled))
    );
    assert_eq!(c.set_escrow_id(3, b("escrow"), b("GT")), Err(RentarsError::BookingNotFound));
    assert_eq!(c.get_booking(1).unwrap().escrow_id, None);
}

#[test]
fn restore_accepts_a_consistent_state() {
    let props = vec![Property {
        id: 1,
        owner: b("GA"),
        title: b("A"),
        price_per_night: 10,
        available: false,
    }];
    let books = vec![Booking {
        id: 1,
        property_id: 1,
        tenant: b("GT"),
        check_in: 1,
        check_out: 3,
        total_amount: 20,
        status: BookingStatus::Confirmed,
        escrow_id: None,
    }];
    let mut c = RentarsContract::restore(props, books).unwrap();
    assert_eq!(c.booking_count(), 1);
    assert_eq!(c.update_status(1, BookingStatus::Cancelled), Ok(()));
    assert!(c.get_property(1).unwrap().available);
}

#[test]
fn restore_refuses_inconsistent_states() {
    let prop = |id: u64, available: bool| Property {
        id,
        owner: b("GA"),
        title: b("A"),
        price_per_night: 10,
        available,
    };
    let booking = |id: u64, property_id: u64, status: BookingStatus| Booking {
        id,
        property_id,
        tenant: b("GT"),
        check_in: 1,
        check_out: 3,
        total_amount: 20,
        status,
        escrow_id: None,
    };
    // ids out of order
    assert!(RentarsContract::restore(vec![prop(2, true)], vec![]).is_none());
    // available while held
    assert!(RentarsContract::restore(vec![prop(1, true)], vec![booking(1, 1, BookingStatus::Pending)]).is_none());
    // not available while free
    assert!(RentarsContract::restore(vec![prop(1, false)], vec![booking(1, 1, BookingStatus::Cancelled)]).is_none());
    // held twice
    assert!(RentarsContract::restore(
        vec![prop(1, false)],
        vec![booking(1, 1, BookingStatus::Pending), booking(2, 1, BookingStatus::Completed)]
    )
    .is_none());
    // booking of a missing property
    assert!(RentarsContract::restore(vec![prop(1, true)], vec![booking(1, 2, BookingStatus::Cancelled)]).is_none());
    // consistent
    assert!(RentarsContract::restore(
        vec![prop(1, false)],
        vec![booking(1, 1, BookingStatus::Cancelled), booking(2, 1, BookingStatus::Completed)]
    )
    .is_some());
}

#[test]
fn bookings_on_different_properties_do_not_conflict() {
    let mut c = RentarsContract::new();
    c.list_property(b("GA"), b("A"), 100);
    c.list_property(b("GB"), b("B"), 200);
    let a = c.book_property(b("GTA"), 1, 1_000, 1_005).unwrap();
    let bb = c.book_property(b("GTB"), 2, 1_000, 1_005).unwrap();
    assert_ne!(a, bb);
    assert_eq!(c.get_booking(a).unwrap().tenant, b("GTA"));
    assert_eq!(c.get_booking(bb).unwrap().total_amount, 1_000);
}

#[test]
fn escrow_id_only_from_tenant_or_owner() {
    let mut c = contract_with_property(100);
    c.book_property(b("GT"), 1, 1_000, 1_005).unwrap();
    assert_eq!(c.set_escrow_id(1, b("evil-escrow"), b("GATTACKER")), Err(RentarsError::Unauthorized));
    assert_eq!(c.get_booking(1).unwrap().escrow_id, None);
    assert_eq!(c.set_escrow_id(1, b("escrow-xyz"), b("GOWNER")), Ok(()));
    assert_eq!(c.get_booking(1).unwrap().escrow_id, Some(b("escrow-xyz")));
}
