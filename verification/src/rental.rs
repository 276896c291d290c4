use vstd::prelude::*;
use crate::bytes::bytes_equal;

verus! {

/// Lifecycle of a booking.
#[derive(Clone, Copy, Debug, PartialEq, Eq, Structural)]
pub enum BookingStatus {
    Pending,
    Confirmed,
    Completed,
    Cancelled,
}

/// Why a requested status change is refused.
#[derive(Clone, Copy, Debug, PartialEq, Eq, Structural)]
pub enum TransitionRejection {
    /// The booking is Completed, a terminal state.
    AlreadyCompleted,
    /// The booking is Cancelled, a terminal state.
    AlreadyCancelled,
    /// Pending cannot jump to Completed without being Confirmed first.
    NotYetConfirmed,
    /// A Confirmed booking cannot go back to Pending.
    RevertToPending,
    /// The booking is already Pending.
    AlreadyPending,
    /// The booking is already Confirmed.
    AlreadyConfirmed,
}

/// The transition table of the booking state machine.
pub open spec fn transition_verdict(from: BookingStatus, to: BookingStatus) -> Result<(), TransitionRejection> {
    match (from, to) {
        (BookingStatus::Pending, BookingStatus::Confirmed) => Ok(()),
        (BookingStatus::Pending, BookingStatus::Cancelled) => Ok(()),
        (BookingStatus::Confirmed, BookingStatus::Completed) => Ok(()),
        (BookingStatus::Confirmed, BookingStatus::Cancelled) => Ok(()),
        (BookingStatus::Completed, _) => Err(TransitionRejection::AlreadyCompleted),
        (BookingStatus::Cancelled, _) => Err(TransitionRejection::AlreadyCancelled),
        (BookingStatus::Pending, BookingStatus::Completed) => Err(TransitionRejection::NotYetConfirmed),
        (BookingStatus::Confirmed, BookingStatus::Pending) => Err(TransitionRejection::RevertToPending),
        (BookingStatus::Pending, BookingStatus::Pending) => Err(TransitionRejection::AlreadyPending),
        (BookingStatus::Confirmed, BookingStatus::Confirmed) => Err(TransitionRejection::AlreadyConfirmed),
    }
}

/// Decides whether a booking may move from `from` to `to`.
pub fn check_transition(from: BookingStatus, to: BookingStatus) -> (r: Result<(), TransitionRejection>)
    ensures
        r == transition_verdict(from, to),
{
    match (from, to) {
        (BookingStatus::Pending, BookingStatus::Confirmed) => Ok(()),
        (BookingStatus::Pending, BookingStatus::Cancelled) => Ok(()),
        (BookingStatus::Confirmed, BookingStatus::Completed) => Ok(()),
        (BookingStatus::Confirmed, BookingStatus::Cancelled) => Ok(()),
        (BookingStatus::Completed, _) => Err(TransitionRejection::AlreadyCompleted),
        (BookingStatus::Cancelled, _) => Err(TransitionRejection::AlreadyCancelled),
        (BookingStatus::Pending, BookingStatus::Completed) => Err(TransitionRejection::NotYetConfirmed),
        (BookingStatus::Confirmed, BookingStatus::Pending) => Err(TransitionRejection::RevertToPending),
        (BookingStatus::Pending, BookingStatus::Pending) => Err(TransitionRejection::AlreadyPending),
        (BookingStatus::Confirmed, BookingStatus::Confirmed) => Err(TransitionRejection::AlreadyConfirmed),
    }
}


/// A listed property. Accounts and texts are held as the bytes of their
/// on-ledger string form.
#[derive(Clone, Debug)]
pub struct Property {
    pub id: u64,
    pub owner: Vec<u8>,
    pub title: Vec<u8>,
    /// Nightly price in USDC stroops.
    pub price_per_night: i128,
    pub available: bool,
}

pub struct PropertyView {
    pub id: u64,
    pub owner: Seq<u8>,
    pub title: Seq<u8>,
    pub price_per_night: i128,
    pub available: bool,
}

impl View for Property {
    type V = PropertyView;

    open spec fn view(&self) -> PropertyView {
        PropertyView {
            id: self.id,
            owner: self.owner@,
            title: self.title@,
            price_per_night: self.price_per_night,
            available: self.available,
        }
    }
}

/// A booking of one property by one tenant.
#[derive(Clone, Debug)]
pub struct Booking {
    pub id: u64,
    pub property_id: u64,
    pub tenant: Vec<u8>,
    pub check_in: u64,
    pub check_out: u64,
    /// Nightly price times the number of nights, in USDC stroops.
    pub total_amount: i128,
    pub status: BookingStatus,
    /// Escrow reference attached after the escrow is created elsewhere.
    pub escrow_id: Option<Vec<u8>>,
}

pub struct BookingView {
    pub id: u64,
    pub property_id: u64,
    pub tenant: Seq<u8>,
    pub check_in: u64,
    pub check_out: u64,
    pub total_amount: i128,
    pub status: BookingStatus,
    pub escrow_id: Option<Seq<u8>>,
}

impl View for Booking {
    type V = BookingView;

    open spec fn view(&self) -> BookingView {
        BookingView {
            id: self.id,
            property_id: self.property_id,
            tenant: self.tenant@,
            check_in: self.check_in,
            check_out: self.check_out,
            total_amount: self.total_amount,
            status: self.status,
            escrow_id: match self.escrow_id {
                Some(e) => Some(e@),
                None => None,
            },
        }
    }
}

impl Property {
    /// A field-by-field copy.
    pub fn duplicate(&self) -> (r: Property)
        ensures
            r@ == self@,
    {
        Property {
            id: self.id,
            owner: self.owner.clone(),
            title: self.title.clone(),
            price_per_night: self.price_per_night,
            available: self.available,
        }
    }
}

impl Booking {
    /// A field-by-field copy.
    pub fn duplicate(&self) -> (r: Booking)
        ensures
            r@ == self@,
    {
        let escrow_id = match &self.escrow_id {
            Some(e) => Some(e.clone()),
            None => None,
        };
        Booking {
            id: self.id,
            property_id: self.property_id,
            tenant: self.tenant.clone(),
            check_in: self.check_in,
            check_out: self.check_out,
            total_amount: self.total_amount,
            status: self.status,
            escrow_id,
        }
    }
}

/// Why an operation of the rental contract is refused.
#[derive(Clone, Copy, Debug, PartialEq, Eq, Structural)]
pub enum RentarsError {
    PropertyNotFound,
    PropertyNotAvailable,
    /// check_out is not after check_in.
    InvalidDates,
    /// The total amount does not fit in an `i128`.
    AmountOverflow,
    BookingNotFound,
    InvalidTransition(TransitionRejection),
    /// The booking is in the given terminal state.
    BookingClosed(BookingStatus),
    /// The caller is neither the booking's tenant nor its property's owner.
    Unauthorized,
}

/// The abstract state of the rental contract: properties and bookings in
/// the order of their ids (id `n` is the `n`-th entry).
pub struct RentarsState {
    pub properties: Seq<PropertyView>,
    pub bookings: Seq<BookingView>,
}

/// A booking holds its property unless it was cancelled.
pub open spec fn holds_property(b: BookingView) -> bool {
    b.status != BookingStatus::Cancelled
}

impl RentarsState {
    pub open spec fn property(self, id: u64) -> Option<PropertyView> {
        if 1 <= id <= self.properties.len() {
            Some(self.properties[id - 1])
        } else {
            None
        }
    }

    pub open spec fn booking(self, id: u64) -> Option<BookingView> {
        if 1 <= id <= self.bookings.len() {
            Some(self.bookings[id - 1])
        } else {
            None
        }
    }

    /// Some booking currently holds the property `pid`.
    pub open spec fn is_held(self, pid: u64) -> bool {
        exists|j: int|
            0 <= j < self.bookings.len() && #[trigger] self.bookings[j].property_id == pid
                && holds_property(self.bookings[j])
    }

    /// Well-formedness: ids are positions, every booking names an existing
    /// property, no property is held by two bookings, and a property is
    /// available exactly when no booking holds it.
    pub open spec fn wf(self) -> bool {
        &&& forall|i: int| #![trigger self.properties[i]] 0 <= i < self.properties.len() ==> self.properties[i].id == i + 1
        &&& forall|j: int|
            #![trigger self.bookings[j]]
            0 <= j < self.bookings.len() ==> {
                &&& self.bookings[j].id == j + 1
                &&& 1 <= self.bookings[j].property_id <= self.properties.len()
                &&& self.bookings[j].check_in < self.bookings[j].check_out
            }
        &&& forall|j: int, k: int|
            #![trigger self.bookings[j], self.bookings[k]]
            0 <= j < self.bookings.len() && 0 <= k < self.bookings.len() && j != k
                && self.bookings[j].property_id == self.bookings[k].property_id
                ==> !(holds_property(self.bookings[j]) && holds_property(self.bookings[k]))
        &&& forall|i: int|
            #![trigger self.properties[i]]
            0 <= i < self.properties.len() ==> (self.properties[i].available <==> !self.is_held(
                (i + 1) as u64,
            ))
    }
}

/// The state after listing a property, and the new property's id.
pub open spec fn list_outcome(s: RentarsState, owner: Seq<u8>, title: Seq<u8>, price_per_night: i128) -> (RentarsState, u64) {
    let id = (s.properties.len() + 1) as u64;
    (
        RentarsState {
            properties: s.properties.push(
                PropertyView { id, owner, title, price_per_night, available: true },
            ),
            bookings: s.bookings,
        },
        id,
    )
}

/// Listing a property keeps the state well formed.
pub proof fn lemma_list_keeps_wf(s: RentarsState, owner: Seq<u8>, title: Seq<u8>, price_per_night: i128)
    requires
        s.wf(),
        s.properties.len() < u64::MAX,
    ensures
        list_outcome(s, owner, title, price_per_night).0.wf(),
{
    let t = list_outcome(s, owner, title, price_per_night).0;
    assert forall|i: int| #![trigger t.properties[i]] 0 <= i < t.properties.len() implies (t.properties[i].available <==> !t.is_held((i + 1) as u64)) by {
        if i < s.properties.len() {
            assert(s.properties[i].available <==> !s.is_held((i + 1) as u64));
            assert(t.is_held((i + 1) as u64) == s.is_held((i + 1) as u64));
        } else {
            if t.is_held((i + 1) as u64) {
                let j = choose|j: int| 0 <= j < t.bookings.len() && #[trigger] t.bookings[j].property_id == (i + 1) as u64 && holds_property(t.bookings[j]);
                assert(s.bookings[j].property_id <= s.properties.len());
            }
        }
    }
}

/// The state after a booking request, and the booking's id or the reason
/// the request is refused.
pub open spec fn book_outcome(
    s: RentarsState,
    tenant: Seq<u8>,
    property_id: u64,
    check_in: u64,
    check_out: u64,
) -> (RentarsState, Result<u64, RentarsError>) {
    match s.property(property_id) {
        None => (s, Err(RentarsError::PropertyNotFound)),
        Some(p) => if !p.available {
            (s, Err(RentarsError::PropertyNotAvailable))
        } else if check_out <= check_in {
            (s, Err(RentarsError::InvalidDates))
        } else {
            let total = p.price_per_night * (check_out - check_in);
            if total < i128::MIN || total > i128::MAX {
                (s, Err(RentarsError::AmountOverflow))
            } else {
                let id = (s.bookings.len() + 1) as u64;
                (
                    RentarsState {
                        properties: s.properties.update(
                            property_id - 1,
                            PropertyView { available: false, ..p },
                        ),
                        bookings: s.bookings.push(
                            BookingView {
                                id,
                                property_id,
                                tenant,
                                check_in,
                                check_out,
                                total_amount: total as i128,
                                status: BookingStatus::Pending,
                                escrow_id: None,
                            },
                        ),
                    },
                    Ok(id),
                )
            }
        },
    }
}

/// A booking request keeps the state well formed.
pub proof fn lemma_book_keeps_wf(s: RentarsState, tenant: Seq<u8>, property_id: u64, check_in: u64, check_out: u64)
    requires
        s.wf(),
        s.bookings.len() < u64::MAX,
    ensures
        book_outcome(s, tenant, property_id, check_in, check_out).0.wf(),
{
    let t = book_outcome(s, tenant, property_id, check_in, check_out).0;
    let r = book_outcome(s, tenant, property_id, check_in, check_out).1;
    if r is Ok {
        let pi = property_id - 1;
        let n = s.bookings.len() as int;
        assert(!s.is_held(property_id)) by {
            assert(s.properties[pi].available);
        }
        assert forall|j: int, k: int|
            #![trigger t.bookings[j], t.bookings[k]]
            0 <= j < t.bookings.len() && 0 <= k < t.bookings.len() && j != k
                && t.bookings[j].property_id == t.bookings[k].property_id
                implies !(holds_property(t.bookings[j]) && holds_property(t.bookings[k])) by {
            if j < n && k < n {
                assert(s.bookings[j] == t.bookings[j] && s.bookings[k] == t.bookings[k]);
            } else if j == n {
                assert(s.bookings[k] == t.bookings[k]);
            } else {
                assert(s.bookings[j] == t.bookings[j]);
            }
        }
        assert forall|i: int| #![trigger t.properties[i]] 0 <= i < t.properties.len() implies (t.properties[i].available <==> !t.is_held((i + 1) as u64)) by {
            if i == pi {
                assert(t.bookings[n].property_id == (i + 1) as u64);
            } else {
                assert(s.properties[i].available <==> !s.is_held((i + 1) as u64));
                if t.is_held((i + 1) as u64) {
                    let j = choose|j: int| 0 <= j < t.bookings.len() && #[trigger] t.bookings[j].property_id == (i + 1) as u64 && holds_property(t.bookings[j]);
                    assert(j < n);
                    assert(s.bookings[j] == t.bookings[j]);
                }
                if s.is_held((i + 1) as u64) {
                    let j = choose|j: int| 0 <= j < s.bookings.len() && #[trigger] s.bookings[j].property_id == (i + 1) as u64 && holds_property(s.bookings[j]);
                    assert(s.bookings[j] == t.bookings[j]);
                }
            }
        }
        assert forall|j: int| #![trigger t.bookings[j]] 0 <= j < t.bookings.len() implies t.bookings[j].id == j + 1 && 1 <= t.bookings[j].property_id <= t.properties.len() && t.bookings[j].check_in < t.bookings[j].check_out by {
            if j < n {
                assert(s.bookings[j] == t.bookings[j]);
            }
        }
    }
}

/// The state after a status change request, and whether it was accepted.
/// Cancelling a booking makes its property available again.
pub open spec fn update_status_outcome(s: RentarsState, booking_id: u64, new_status: BookingStatus) -> (RentarsState, Result<(), RentarsError>) {
    match s.booking(booking_id) {
        None => (s, Err(RentarsError::BookingNotFound)),
        Some(b) => match transition_verdict(b.status, new_status) {
            Err(rejection) => (s, Err(RentarsError::InvalidTransition(rejection))),
            Ok(_) => {
                let bookings = s.bookings.update(booking_id - 1, BookingView { status: new_status, ..b });
                if new_status == BookingStatus::Cancelled {
                    match s.property(b.property_id) {
                        None => (s, Err(RentarsError::PropertyNotFound)),
                        Some(p) => (
                            RentarsState {
                                properties: s.properties.update(
                                    b.property_id - 1,
                                    PropertyView { available: true, ..p },
                                ),
                                bookings,
                            },
                            Ok(()),
                        ),
                    }
                } else {
                    (RentarsState { properties: s.properties, bookings }, Ok(()))
                }
            },
        },
    }
}

/// A status change keeps the state well formed.
pub proof fn lemma_update_status_keeps_wf(s: RentarsState, booking_id: u64, new_status: BookingStatus)
    requires
        s.wf(),
    ensures
        update_status_outcome(s, booking_id, new_status).0.wf(),
{
    let t = update_status_outcome(s, booking_id, new_status).0;
    let r = update_status_outcome(s, booking_id, new_status).1;
    if r is Ok {
        let bi = booking_id - 1;
        let b = s.bookings[bi];
        let pid = b.property_id;
        assert(holds_property(b));
        assert(t.bookings[bi].property_id == pid);
        assert forall|j: int| #![trigger t.bookings[j]] 0 <= j < t.bookings.len() implies t.bookings[j].id == j + 1 && 1 <= t.bookings[j].property_id <= t.properties.len() && t.bookings[j].check_in < t.bookings[j].check_out by {
            assert(s.bookings[j].property_id == t.bookings[j].property_id);
        }
        assert forall|j: int, k: int|
            #![trigger t.bookings[j], t.bookings[k]]
            0 <= j < t.bookings.len() && 0 <= k < t.bookings.len() && j != k
                && t.bookings[j].property_id == t.bookings[k].property_id
                implies !(holds_property(t.bookings[j]) && holds_property(t.bookings[k])) by {
            assert(holds_property(t.bookings[j]) ==> holds_property(s.bookings[j]));
            assert(holds_property(t.bookings[k]) ==> holds_property(s.bookings[k]));
            assert(s.bookings[j].property_id == t.bookings[j].property_id);
            assert(s.bookings[k].property_id == t.bookings[k].property_id);
        }
        assert forall|i: int| #![trigger t.properties[i]] 0 <= i < t.properties.len() implies (t.properties[i].available <==> !t.is_held((i + 1) as u64)) by {
            let q = (i + 1) as u64;
            assert(s.properties[i].available <==> !s.is_held(q));
            if t.is_held(q) {
                let j = choose|j: int| 0 <= j < t.bookings.len() && #[trigger] t.bookings[j].property_id == q && holds_property(t.bookings[j]);
                assert(s.bookings[j].property_id == q && holds_property(s.bookings[j]));
                if new_status == BookingStatus::Cancelled {
                    assert(j != bi);
                    if q == pid {
                        assert(s.bookings[bi].property_id == s.bookings[j].property_id);
                        assert(false);
                    }
                }
            }
            if s.is_held(q) {
                let j = choose|j: int| 0 <= j < s.bookings.len() && #[trigger] s.bookings[j].property_id == q && holds_property(s.bookings[j]);
                if new_status != BookingStatus::Cancelled || j != bi {
                    assert(t.bookings[j].property_id == q && holds_property(t.bookings[j]));
                } else {
                    assert(q == pid);
                }
            }
        }
    }
}

/// The caller is the booking's tenant or the owner of its property.
pub open spec fn is_party(s: RentarsState, b: BookingView, caller: Seq<u8>) -> bool {
    caller == b.tenant || match s.property(b.property_id) {
        Some(p) => caller == p.owner,
        None => false,
    }
}

/// The state after attaching an escrow reference to a booking, and whether
/// it was accepted: only the booking's tenant or its property's owner may
/// attach one, and only to a booking that is not yet Completed or
/// Cancelled; it replaces any earlier one.
pub open spec fn set_escrow_outcome(s: RentarsState, booking_id: u64, escrow_id: Seq<u8>, caller: Seq<u8>) -> (RentarsState, Result<(), RentarsError>) {
    match s.booking(booking_id) {
        None => (s, Err(RentarsError::BookingNotFound)),
        Some(b) => if !is_party(s, b, caller) {
            (s, Err(RentarsError::Unauthorized))
        } else if b.status == BookingStatus::Completed || b.status == BookingStatus::Cancelled {
            (s, Err(RentarsError::BookingClosed(b.status)))
        } else {
            (
                RentarsState {
                    properties: s.properties,
                    bookings: s.bookings.update(booking_id - 1, BookingView { escrow_id: Some(escrow_id), ..b }),
                },
                Ok(()),
            )
        },
    }
}

/// Attaching an escrow reference keeps the state well formed.
pub proof fn lemma_set_escrow_keeps_wf(s: RentarsState, booking_id: u64, escrow_id: Seq<u8>, caller: Seq<u8>)
    requires
        s.wf(),
    ensures
        set_escrow_outcome(s, booking_id, escrow_id, caller).0.wf(),
{
    let t = set_escrow_outcome(s, booking_id, escrow_id, caller).0;
    let r = set_escrow_outcome(s, booking_id, escrow_id, caller).1;
    if r is Ok {
        assert forall|j: int| #![trigger t.bookings[j]] 0 <= j < t.bookings.len() implies t.bookings[j].id == j + 1 && 1 <= t.bookings[j].property_id <= t.properties.len() && t.bookings[j].check_in < t.bookings[j].check_out by {
            assert(s.bookings[j].property_id == t.bookings[j].property_id);
        }
        assert forall|j: int, k: int|
            #![trigger t.bookings[j], t.bookings[k]]
            0 <= j < t.bookings.len() && 0 <= k < t.bookings.len() && j != k
                && t.bookings[j].property_id == t.bookings[k].property_id
                implies !(holds_property(t.bookings[j]) && holds_property(t.bookings[k])) by {
            assert(s.bookings[j].status == t.bookings[j].status && s.bookings[j].property_id == t.bookings[j].property_id);
            assert(s.bookings[k].status == t.bookings[k].status && s.bookings[k].property_id == t.bookings[k].property_id);
        }
        assert forall|i: int| #![trigger t.properties[i]] 0 <= i < t.properties.len() implies (t.properties[i].available <==> !t.is_held((i + 1) as u64)) by {
            let q = (i + 1) as u64;
            assert(s.properties[i].available <==> !s.is_held(q));
            if t.is_held(q) {
                let j = choose|j: int| 0 <= j < t.bookings.len() && #[trigger] t.bookings[j].property_id == q && holds_property(t.bookings[j]);
                assert(s.bookings[j].property_id == q && holds_property(s.bookings[j]));
            }
            if s.is_held(q) {
                let j = choose|j: int| 0 <= j < s.bookings.len() && #[trigger] s.bookings[j].property_id == q && holds_property(s.bookings[j]);
                assert(t.bookings[j].property_id == q && holds_property(t.bookings[j]));
            }
        }
    }
}

/// The rental contract: its listed properties and its bookings.
pub struct RentarsContract {
    properties: Vec<Property>,
    bookings: Vec<Booking>,
}

impl View for RentarsContract {
    type V = RentarsState;

    closed spec fn view(&self) -> RentarsState {
        RentarsState {
            properties: self.properties@.map_values(|p: Property| p@),
            bookings: self.bookings@.map_values(|b: Booking| b@),
        }
    }
}

impl RentarsContract {
    /// A contract with no properties and no bookings.
    pub fn new() -> (c: Self)
        ensures
            c@.properties.len() == 0,
            c@.bookings.len() == 0,
            c@.wf(),
    {
        let c = RentarsContract { properties: Vec::new(), bookings: Vec::new() };
        assert(c@.properties =~= Seq::<PropertyView>::empty());
        c
    }

    /// The contract made of stored records, if they form a well-formed
    /// state; `None` otherwise.
    pub fn restore(properties: Vec<Property>, bookings: Vec<Booking>) -> (r: Option<Self>)
        ensures
            ({
                let s = RentarsState {
                    properties: properties@.map_values(|p: Property| p@),
                    bookings: bookings@.map_values(|b: Booking| b@),
                };
                match r {
                    Some(c) => s.wf() && c@ == s,
                    None => !s.wf(),
                }
            }),
    {
        let c = RentarsContract { properties, bookings };
        if c.is_well_formed() {
            Some(c)
        } else {
            None
        }
    }

    /// Checks the well-formedness of the state.
    fn is_well_formed(&self) -> (b: bool)
        ensures
            b == self@.wf(),
    {
        let ghost s = self@;
        let np = self.properties.len();
        let nb = self.bookings.len();
        let mut i: usize = 0;
        while i < np
            invariant
                np == self.properties.len(),
                s == self@,
                i <= np,
                forall|k: int| #![trigger s.properties[k]] 0 <= k < i ==> s.properties[k].id == k + 1,
            decreases np - i,
        {
            assert(s.properties[i as int] == self.properties@[i as int]@);
            if self.properties[i].id != i as u64 + 1 {
                return false;
            }
            i = i + 1;
        }
        let mut j: usize = 0;
        while j < nb
            invariant
                np == self.properties.len(),
                nb == self.bookings.len(),
                s == self@,
                j <= nb,
                forall|k: int| #![trigger s.properties[k]] 0 <= k < np ==> s.properties[k].id == k + 1,
                forall|k: int|
                    #![trigger s.bookings[k]]
                    0 <= k < j ==> {
                        &&& s.bookings[k].id == k + 1
                        &&& 1 <= s.bookings[k].property_id <= s.properties.len()
                        &&& s.bookings[k].check_in < s.bookings[k].check_out
                    },
            decreases nb - j,
        {
            assert(s.bookings[j as int] == self.bookings@[j as int]@);
            let b = &self.bookings[j];
            if b.id != j as u64 + 1 || b.property_id == 0 || b.property_id > np as u64 || b.check_in >= b.check_out {
                return false;
            }
            j = j + 1;
        }
        let mut held: Vec<bool> = Vec::new();
        let mut q: usize = 0;
        while q < np
            invariant
                q <= np,
                held.len() == q,
                forall|k: int| 0 <= k < q ==> !held@[k],
            decreases np - q,
        {
            held.push(false);
            q = q + 1;
        }
        let mut j: usize = 0;
        while j < nb
            invariant
                np == self.properties.len(),
                nb == self.bookings.len(),
                s == self@,
                j <= nb,
                held.len() == np,
                forall|k: int| #![trigger s.properties[k]] 0 <= k < np ==> s.properties[k].id == k + 1,
                forall|k: int|
                    #![trigger s.bookings[k]]
                    0 <= k < nb ==> {
                        &&& s.bookings[k].id == k + 1
                        &&& 1 <= s.bookings[k].property_id <= s.properties.len()
                        &&& s.bookings[k].check_in < s.bookings[k].check_out
                    },
                forall|p: int|
                    0 <= p < np ==> (held@[p] <==> exists|k: int|
                        0 <= k < j && #[trigger] s.bookings[k].property_id == p + 1 && holds_property(
                            s.bookings[k],
                        )),
                forall|k1: int, k2: int|
                    #![trigger s.bookings[k1], s.bookings[k2]]
                    0 <= k1 < j && 0 <= k2 < j && k1 != k2 && s.bookings[k1].property_id
                        == s.bookings[k2].property_id ==> !(holds_property(s.bookings[k1]) && holds_property(
                        s.bookings[k2],
                    )),
            decreases nb - j,
        {
            assert(s.bookings[j as int] == self.bookings@[j as int]@);
            if self.bookings[j].status != BookingStatus::Cancelled {
                let p = (self.bookings[j].property_id - 1) as usize;
                if held[p] {
                    proof {
                        let k = choose|k: int|
                            0 <= k < j && #[trigger] s.bookings[k].property_id == p + 1 && holds_property(s.bookings[k]);
                        assert(s.bookings[k].property_id == s.bookings[j as int].property_id);
                    }
                    return false;
                }
                held.set(p, true);
                proof {
                    assert forall|p2: int|
                        0 <= p2 < np implies (held@[p2] <==> exists|k: int|
                            0 <= k < j + 1 && #[trigger] s.bookings[k].property_id == p2 + 1 && holds_property(
                                s.bookings[k],
                            )) by {
                        if p2 == p {
                            assert(s.bookings[j as int].property_id == p2 + 1);
                        } else if exists|k: int|
                            0 <= k < j + 1 && #[trigger] s.bookings[k].property_id == p2 + 1 && holds_property(
                                s.bookings[k],
                            ) {
                            let k = choose|k: int|
                                0 <= k < j + 1 && #[trigger] s.bookings[k].property_id == p2 + 1 && holds_property(
                                    s.bookings[k],
                                );
                            assert(k != j);
                        }
                    }
                    assert forall|k1: int, k2: int|
                        #![trigger s.bookings[k1], s.bookings[k2]]
                        0 <= k1 < j + 1 && 0 <= k2 < j + 1 && k1 != k2 && s.bookings[k1].property_id
                            == s.bookings[k2].property_id implies !(holds_property(s.bookings[k1]) && holds_property(
                            s.bookings[k2],
                        )) by {
                        if k1 == j && holds_property(s.bookings[k2]) {
                            assert(s.bookings[k2].property_id == p + 1);
                        }
                        if k2 == j && holds_property(s.bookings[k1]) {
                            assert(s.bookings[k1].property_id == p + 1);
                        }
                    }
                }
            } else {
                proof {
                    assert forall|p2: int|
                        0 <= p2 < np implies (held@[p2] <==> exists|k: int|
                            0 <= k < j + 1 && #[trigger] s.bookings[k].property_id == p2 + 1 && holds_property(
                                s.bookings[k],
                            )) by {
                        if exists|k: int|
                            0 <= k < j + 1 && #[trigger] s.bookings[k].property_id == p2 + 1 && holds_property(
                                s.bookings[k],
                            ) {
                            let k = choose|k: int|
                                0 <= k < j + 1 && #[trigger] s.bookings[k].property_id == p2 + 1 && holds_property(
                                    s.bookings[k],
                                );
                            assert(k != j);
                        }
                    }
                }
            }
            j = j + 1;
        }
        let mut i: usize = 0;
        while i < np
            invariant
                np == self.properties.len(),
                s == self@,
                i <= np,
                held.len() == np,
                forall|p: int|
                    0 <= p < np ==> (held@[p] <==> #[trigger] s.is_held((p + 1) as u64)),
                forall|k: int| #![trigger s.properties[k]] 0 <= k < i ==> (s.properties[k].available <==> !s.is_held((k + 1) as u64)),
            decreases np - i,
        {
            assert(s.properties[i as int] == self.properties@[i as int]@);
            assert(held@[i as int] <==> s.is_held((i + 1) as u64));
            if self.properties[i].available == held[i] {
                return false;
            }
            i = i + 1;
        }
        true
    }

    /// Number of properties listed so far (the id of the latest one).
    pub fn property_count(&self) -> (n: u64)
        ensures
            n == self@.properties.len(),
    {
        let n: usize = self.properties.len();
        n as u64
    }

    /// Number of bookings made so far (the id of the latest one).
    pub fn booking_count(&self) -> (n: u64)
        ensures
            n == self@.bookings.len(),
    {
        let n: usize = self.bookings.len();
        n as u64
    }

    /// Lists a new, available property and returns its id.
    pub fn list_property(&mut self, owner: Vec<u8>, title: Vec<u8>, price_per_night: i128) -> (id: u64)
        requires
            old(self)@.wf(),
            old(self)@.properties.len() < u64::MAX,
        ensures
            (final(self)@, id) == list_outcome(old(self)@, owner@, title@, price_per_night),
            final(self)@.wf(),
    {
        let id = self.properties.len() as u64 + 1;
        let property = Property { id, owner, title, price_per_night, available: true };
        self.properties.push(property);
        proof {
            lemma_list_keeps_wf(old(self)@, owner@, title@, price_per_night);
            assert(self@.properties =~= list_outcome(old(self)@, owner@, title@, price_per_night).0.properties);
            assert(self@.bookings =~= old(self)@.bookings);
        }
        id
    }

    /// The property with the given id, if there is one.
    pub fn get_property(&self, id: u64) -> (r: Option<Property>)
        requires
            self@.wf(),
        ensures
            match r {
                Some(p) => self@.property(id) == Some(p@),
                None => self@.property(id) is None,
            },
    {
        if id == 0 || id > self.properties.len() as u64 {
            return None;
        }
        let idx = (id - 1) as usize;
        Some(self.properties[idx].duplicate())
    }

    /// The booking with the given id, if there is one.
    pub fn get_booking(&self, id: u64) -> (r: Option<Booking>)
        requires
            self@.wf(),
        ensures
            match r {
                Some(b) => self@.booking(id) == Some(b@),
                None => self@.booking(id) is None,
            },
    {
        if id == 0 || id > self.bookings.len() as u64 {
            return None;
        }
        let idx = (id - 1) as usize;
        Some(self.bookings[idx].duplicate())
    }

    /// Books an available property for the nights from `check_in` to
    /// `check_out`, at the property's nightly price; the property stops
    /// being available. Returns the new booking's id.
    pub fn book_property(&mut self, tenant: Vec<u8>, property_id: u64, check_in: u64, check_out: u64) -> (r: Result<u64, RentarsError>)
        requires
            old(self)@.wf(),
            old(self)@.bookings.len() < u64::MAX,
        ensures
            (final(self)@, r) == book_outcome(old(self)@, tenant@, property_id, check_in, check_out),
            final(self)@.wf(),
    {
        proof {
            lemma_book_keeps_wf(self@, tenant@, property_id, check_in, check_out);
        }
        if property_id == 0 || property_id > self.properties.len() as u64 {
            return Err(RentarsError::PropertyNotFound);
        }
        let idx = (property_id - 1) as usize;
        if !self.properties[idx].available {
            return Err(RentarsError::PropertyNotAvailable);
        }
        if check_out <= check_in {
            return Err(RentarsError::InvalidDates);
        }
        let nights = (check_out - check_in) as i128;
        let total_amount = match self.properties[idx].price_per_night.checked_mul(nights) {
            Some(t) => t,
            None => {
                return Err(RentarsError::AmountOverflow);
            },
        };
        let id = self.bookings.len() as u64 + 1;
        let mut property = self.properties[idx].duplicate();
        property.available = false;
        self.properties.set(idx, property);
        self.bookings.push(
            Booking {
                id,
                property_id,
                tenant,
                check_in,
                check_out,
                total_amount,
                status: BookingStatus::Pending,
                escrow_id: None,
            },
        );
        proof {
            let t = book_outcome(old(self)@, tenant@, property_id, check_in, check_out).0;
            assert(self@.properties =~= t.properties);
            assert(self@.bookings =~= t.bookings);
        }
        Ok(id)
    }

    /// Whether `caller` is the tenant of the booking at position `bi` or the
    /// owner of its property.
    fn is_party(&self, bi: usize, caller: &Vec<u8>) -> (r: bool)
        requires
            bi < self@.bookings.len(),
        ensures
            r == is_party(self@, self@.bookings[bi as int], caller@),
    {
        if bytes_equal(&self.bookings[bi].tenant, caller) {
            return true;
        }
        let property_id = self.bookings[bi].property_id;
        if property_id == 0 || property_id > self.properties.len() as u64 {
            return false;
        }
        let pi = (property_id - 1) as usize;
        bytes_equal(&self.properties[pi].owner, caller)
    }

    /// Moves a booking through its state machine. The accepted transitions
    /// are Pending to Confirmed, Pending to Cancelled, Confirmed to Completed
    /// and Confirmed to Cancelled; cancelling makes the property available
    /// again.
    pub fn update_status(&mut self, booking_id: u64, new_status: BookingStatus) -> (r: Result<(), RentarsError>)
        requires
            old(self)@.wf(),
        ensures
            (final(self)@, r) == update_status_outcome(old(self)@, booking_id, new_status),
            final(self)@.wf(),
    {
        proof {
            lemma_update_status_keeps_wf(self@, booking_id, new_status);
        }
        if booking_id == 0 || booking_id > self.bookings.len() as u64 {
            return Err(RentarsError::BookingNotFound);
        }
        let bi = (booking_id - 1) as usize;
        match check_transition(self.bookings[bi].status, new_status) {
            Err(rejection) => {
                return Err(RentarsError::InvalidTransition(rejection));
            },
            Ok(()) => {},
        }
        let property_id = self.bookings[bi].property_id;
        if new_status == BookingStatus::Cancelled {
            if property_id == 0 || property_id > self.properties.len() as u64 {
                return Err(RentarsError::PropertyNotFound);
            }
            let pi = (property_id - 1) as usize;
            let mut property = self.properties[pi].duplicate();
            property.available = true;
            self.properties.set(pi, property);
        }
        let mut booking = self.bookings[bi].duplicate();
        booking.status = new_status;
        self.bookings.set(bi, booking);
        proof {
            let t = update_status_outcome(old(self)@, booking_id, new_status).0;
            assert(self@.properties =~= t.properties);
            assert(self@.bookings =~= t.bookings);
        }
        Ok(())
    }

    /// Attaches an escrow reference to a booking that is neither Completed
    /// nor Cancelled, replacing any earlier one. Only the booking's tenant
    /// or its property's owner may do so.
    pub fn set_escrow_id(&mut self, booking_id: u64, escrow_id: Vec<u8>, caller: Vec<u8>) -> (r: Result<(), RentarsError>)
        requires
            old(self)@.wf(),
        ensures
            (final(self)@, r) == set_escrow_outcome(old(self)@, booking_id, escrow_id@, caller@),
            final(self)@.wf(),
    {
        proof {
            lemma_set_escrow_keeps_wf(self@, booking_id, escrow_id@, caller@);
        }
        if booking_id == 0 || booking_id > self.bookings.len() as u64 {
            return Err(RentarsError::BookingNotFound);
        }
        let bi = (booking_id - 1) as usize;
        if !self.is_party(bi, &caller) {
            return Err(RentarsError::Unauthorized);
        }
        let status = self.bookings[bi].status;
        match status {
            BookingStatus::Completed => {
                return Err(RentarsError::BookingClosed(BookingStatus::Completed));
            },
            BookingStatus::Cancelled => {
                return Err(RentarsError::BookingClosed(BookingStatus::Cancelled));
            },
            _ => {},
        }
        let mut booking = self.bookings[bi].duplicate();
        booking.escrow_id = Some(escrow_id);
        self.bookings.set(bi, booking);
        proof {
            let t = set_escrow_outcome(old(self)@, booking_id, escrow_id@, caller@).0;
            assert(self@.properties =~= t.properties);
            assert(self@.bookings =~= t.bookings);
        }
        Ok(())
    }
}

} // verus!

verus! {

/// A listed property can be read back under the id it was given, which is
/// one more than the number of properties before it; it starts available.
pub proof fn law_listed_property_is_readable(s: RentarsState, owner: Seq<u8>, title: Seq<u8>, price_per_night: i128)
    requires
        s.properties.len() < u64::MAX,
    ensures
        ({
            let (t, id) = list_outcome(s, owner, title, price_per_night);
            &&& id == s.properties.len() + 1
            &&& t.property(id) == Some(PropertyView { id, owner, title, price_per_night, available: true })
            &&& t.bookings == s.bookings
        }),
{
}

/// An accepted booking can be read back: it is Pending, has no escrow
/// reference, costs the nightly price times the number of nights, and its
/// property is no longer available.
pub proof fn law_booking_is_readable(s: RentarsState, tenant: Seq<u8>, property_id: u64, check_in: u64, check_out: u64)
    requires
        s.wf(),
        s.bookings.len() < u64::MAX,
        book_outcome(s, tenant, property_id, check_in, check_out).1 is Ok,
    ensures
        ({
            let (t, r) = book_outcome(s, tenant, property_id, check_in, check_out);
            let id = r->Ok_0;
            let p = s.property(property_id)->Some_0;
            &&& id == s.bookings.len() + 1
            &&& t.booking(id) == Some(
                BookingView {
                    id,
                    property_id,
                    tenant,
                    check_in,
                    check_out,
                    total_amount: (p.price_per_night * (check_out - check_in)) as i128,
                    status: BookingStatus::Pending,
                    escrow_id: None,
                },
            )
            &&& t.property(property_id) == Some(PropertyView { available: false, ..p })
        }),
{
}

/// Once a property is booked, every further booking request for it is
/// refused as not available, whoever asks and for whatever dates.
pub proof fn law_booked_property_cannot_be_booked_again(
    s: RentarsState,
    tenant: Seq<u8>,
    property_id: u64,
    check_in: u64,
    check_out: u64,
    tenant2: Seq<u8>,
    check_in2: u64,
    check_out2: u64,
)
    requires
        s.wf(),
        s.bookings.len() < u64::MAX,
        book_outcome(s, tenant, property_id, check_in, check_out).1 is Ok,
    ensures
        ({
            let t = book_outcome(s, tenant, property_id, check_in, check_out).0;
            book_outcome(t, tenant2, property_id, check_in2, check_out2)
                == (t, Err::<u64, RentarsError>(RentarsError::PropertyNotAvailable))
        }),
{
}

/// In every well-formed state no property is held by two bookings that are
/// not cancelled.
pub proof fn law_no_double_booking(s: RentarsState, j: int, k: int)
    requires
        s.wf(),
        0 <= j < s.bookings.len(),
        0 <= k < s.bookings.len(),
        j != k,
        s.bookings[j].property_id == s.bookings[k].property_id,
    ensures
        s.bookings[j].status == BookingStatus::Cancelled || s.bookings[k].status == BookingStatus::Cancelled,
{
}

/// In every well-formed state a property is available exactly when no
/// booking that is not cancelled holds it.
pub proof fn law_availability_matches_bookings(s: RentarsState, property_id: u64)
    requires
        s.wf(),
        s.property(property_id) is Some,
    ensures
        s.property(property_id)->Some_0.available <==> !(exists|j: int|
            0 <= j < s.bookings.len() && #[trigger] s.bookings[j].property_id == property_id
                && s.bookings[j].status != BookingStatus::Cancelled),
{
    assert(s.properties[property_id - 1].available <==> !s.is_held(property_id));
}

/// The state machine accepts exactly four transitions: Pending to Confirmed
/// or Cancelled, and Confirmed to Completed or Cancelled.
pub proof fn law_accepted_transitions(from: BookingStatus, to: BookingStatus)
    ensures
        transition_verdict(from, to) is Ok <==> (
            (from == BookingStatus::Pending && to == BookingStatus::Confirmed)
            || (from == BookingStatus::Pending && to == BookingStatus::Cancelled)
            || (from == BookingStatus::Confirmed && to == BookingStatus::Completed)
            || (from == BookingStatus::Confirmed && to == BookingStatus::Cancelled)),
{
}

/// Completed and Cancelled are terminal: a booking in either state refuses
/// every status change and every escrow reference, and the state stays as
/// it was.
pub proof fn law_terminal_states_are_final(s: RentarsState, booking_id: u64, to: BookingStatus, escrow_id: Seq<u8>, caller: Seq<u8>)
    requires
        s.booking(booking_id) is Some,
        s.booking(booking_id)->Some_0.status == BookingStatus::Completed
            || s.booking(booking_id)->Some_0.status == BookingStatus::Cancelled,
    ensures
        update_status_outcome(s, booking_id, to).1 is Err,
        update_status_outcome(s, booking_id, to).0 == s,
        set_escrow_outcome(s, booking_id, escrow_id, caller).1 is Err,
        set_escrow_outcome(s, booking_id, escrow_id, caller).0 == s,
{
}

/// In a well-formed state, a status change never fails for want of the
/// booking's property.
pub proof fn law_status_change_always_finds_property(s: RentarsState, booking_id: u64, to: BookingStatus)
    requires
        s.wf(),
    ensures
        update_status_outcome(s, booking_id, to).1 != Err::<(), RentarsError>(RentarsError::PropertyNotFound),
{
    if s.booking(booking_id) is Some {
        assert(s.bookings[booking_id - 1].property_id <= s.properties.len());
    }
}

/// An accepted status change is what a later read of the booking shows,
/// and cancelling makes the property available again, so that a new
/// booking of it with valid dates and an amount that fits is accepted.
pub proof fn law_cancelling_releases_property(
    s: RentarsState,
    booking_id: u64,
    tenant: Seq<u8>,
    check_in: u64,
    check_out: u64,
)
    requires
        s.wf(),
        s.bookings.len() < u64::MAX,
        update_status_outcome(s, booking_id, BookingStatus::Cancelled).1 is Ok,
    ensures
        ({
            let t = update_status_outcome(s, booking_id, BookingStatus::Cancelled).0;
            let b = s.booking(booking_id)->Some_0;
            let p = s.property(b.property_id)->Some_0;
            &&& t.booking(booking_id) == Some(BookingView { status: BookingStatus::Cancelled, ..b })
            &&& t.property(b.property_id) == Some(PropertyView { available: true, ..p })
            &&& (check_in < check_out && i128::MIN <= p.price_per_night * (check_out - check_in) <= i128::MAX)
                ==> book_outcome(t, tenant, b.property_id, check_in, check_out).1 == Ok::<u64, RentarsError>(
                (s.bookings.len() + 1) as u64)
        }),
{
}

/// An accepted status change other than a cancellation only changes the
/// booking's status.
pub proof fn law_status_change_is_readable(s: RentarsState, booking_id: u64, to: BookingStatus)
    requires
        update_status_outcome(s, booking_id, to).1 is Ok,
        to != BookingStatus::Cancelled,
    ensures
        ({
            let t = update_status_outcome(s, booking_id, to).0;
            let b = s.booking(booking_id)->Some_0;
            &&& t.booking(booking_id) == Some(BookingView { status: to, ..b })
            &&& t.properties == s.properties
        }),
{
}

/// An accepted escrow reference is what a later read of the booking shows;
/// a second one replaces the first.
pub proof fn law_escrow_id_is_readable(s: RentarsState, booking_id: u64, escrow_id: Seq<u8>, caller: Seq<u8>)
    requires
        set_escrow_outcome(s, booking_id, escrow_id, caller).1 is Ok,
    ensures
        ({
            let t = set_escrow_outcome(s, booking_id, escrow_id, caller).0;
            let b = s.booking(booking_id)->Some_0;
            &&& t.booking(booking_id) == Some(BookingView { escrow_id: Some(escrow_id), ..b })
            &&& t.properties == s.properties
        }),
{
}

/// Only the booking's tenant or its property's owner can attach an escrow
/// reference; anyone else is refused and nothing changes.
pub proof fn law_only_parties_set_escrow_id(s: RentarsState, booking_id: u64, escrow_id: Seq<u8>, caller: Seq<u8>)
    requires
        s.booking(booking_id) is Some,
        !is_party(s, s.booking(booking_id)->Some_0, caller),
    ensures
        set_escrow_outcome(s, booking_id, escrow_id, caller) == (s, Err::<(), RentarsError>(RentarsError::Unauthorized)),
{
}

/// A refused request leaves the state as it was.
pub proof fn law_refused_requests_change_nothing(
    s: RentarsState,
    tenant: Seq<u8>,
    id: u64,
    check_in: u64,
    check_out: u64,
    to: BookingStatus,
    escrow_id: Seq<u8>,
    caller: Seq<u8>,
)
    ensures
        book_outcome(s, tenant, id, check_in, check_out).1 is Err ==> book_outcome(s, tenant, id, check_in, check_out).0 == s,
        update_status_outcome(s, id, to).1 is Err ==> update_status_outcome(s, id, to).0 == s,
        set_escrow_outcome(s, id, escrow_id, caller).1 is Err ==> set_escrow_outcome(s, id, escrow_id, caller).0 == s,
{
}

/// The tenant of an open booking, and the owner of the property that the
/// booking names, may attach an escrow reference: the request is accepted
/// and changes only that booking's escrow reference.
pub proof fn law_tenant_or_owner_sets_escrow_id(s: RentarsState, booking_id: u64, escrow_id: Seq<u8>, caller: Seq<u8>)
    requires
        1 <= booking_id <= s.bookings.len(),
        s.bookings[booking_id - 1].status == BookingStatus::Pending
            || s.bookings[booking_id - 1].status == BookingStatus::Confirmed,
        caller == s.bookings[booking_id - 1].tenant || (1 <= s.bookings[booking_id - 1].property_id
            <= s.properties.len() && caller == s.properties[s.bookings[booking_id - 1].property_id
            - 1].owner),
    ensures
        ({
            let (t, r) = set_escrow_outcome(s, booking_id, escrow_id, caller);
            let b = s.bookings[booking_id - 1];
            &&& r == Ok::<(), RentarsError>(())
            &&& t.properties == s.properties
            &&& t.bookings.len() == s.bookings.len()
            &&& t.bookings[booking_id - 1] == BookingView {
                id: b.id,
                property_id: b.property_id,
                tenant: b.tenant,
                check_in: b.check_in,
                check_out: b.check_out,
                total_amount: b.total_amount,
                status: b.status,
                escrow_id: Some(escrow_id),
            }
            &&& forall|j: int| 0 <= j < s.bookings.len() && j != booking_id - 1 ==> #[trigger] t.bookings[j] == s.bookings[j]
        }),
{
}

/// Whether a status change of an existing booking is accepted depends only
/// on its current status and the requested one: exactly Pending to
/// Confirmed or Cancelled and Confirmed to Completed or Cancelled are
/// accepted, whatever the booking's escrow reference, tenant, dates or
/// amount. An accepted change sets the status, keeps the booking's other
/// fields, and a cancellation makes the booked property available again.
pub proof fn law_status_change_depends_only_on_statuses(s: RentarsState, booking_id: u64, to: BookingStatus)
    requires
        s.wf(),
        1 <= booking_id <= s.bookings.len(),
    ensures
        ({
            let (t, r) = update_status_outcome(s, booking_id, to);
            let b = s.bookings[booking_id - 1];
            let from = b.status;
            &&& r is Ok <==> (
                (from == BookingStatus::Pending && to == BookingStatus::Confirmed)
                || (from == BookingStatus::Pending && to == BookingStatus::Cancelled)
                || (from == BookingStatus::Confirmed && to == BookingStatus::Completed)
                || (from == BookingStatus::Confirmed && to == BookingStatus::Cancelled))
            &&& r is Err ==> t == s
            &&& r is Ok ==> {
                &&& t.bookings.len() == s.bookings.len()
                &&& t.bookings[booking_id - 1] == BookingView {
                    id: b.id,
                    property_id: b.property_id,
                    tenant: b.tenant,
                    check_in: b.check_in,
                    check_out: b.check_out,
                    total_amount: b.total_amount,
                    status: to,
                    escrow_id: b.escrow_id,
                }
                &&& forall|j: int| 0 <= j < s.bookings.len() && j != booking_id - 1 ==> #[trigger] t.bookings[j] == s.bookings[j]
                &&& t.properties.len() == s.properties.len()
                &&& to == BookingStatus::Cancelled ==> t.properties[b.property_id - 1].available
                &&& forall|i: int| 0 <= i < s.properties.len() && i != b.property_id - 1 ==> #[trigger] t.properties[i] == s.properties[i]
                &&& to != BookingStatus::Cancelled ==> t.properties == s.properties
            }
        }),
{
    let b = s.bookings[booking_id - 1];
    assert(1 <= b.property_id <= s.properties.len());
}

/// In every well-formed state, a request to book an existing, available
/// property for at least one night, at a total that fits, is accepted under
/// the next id, whether or not the property was booked before: the new
/// booking is Pending, costs the nightly price times the nights and has no
/// escrow reference, and only the property's availability changes.
pub proof fn law_valid_booking_is_accepted(
    s: RentarsState,
    tenant: Seq<u8>,
    property_id: u64,
    check_in: u64,
    check_out: u64,
)
    requires
        s.wf(),
        s.bookings.len() < u64::MAX,
        1 <= property_id <= s.properties.len(),
        s.properties[property_id - 1].available,
        check_in < check_out,
        i128::MIN <= s.properties[property_id - 1].price_per_night * (check_out - check_in) <= i128::MAX,
    ensures
        ({
            let (t, r) = book_outcome(s, tenant, property_id, check_in, check_out);
            let p = s.properties[property_id - 1];
            &&& r == Ok::<u64, RentarsError>((s.bookings.len() + 1) as u64)
            &&& t.bookings.len() == s.bookings.len() + 1
            &&& t.bookings.take(s.bookings.len() as int) == s.bookings
            &&& t.bookings[s.bookings.len() as int] == BookingView {
                id: (s.bookings.len() + 1) as u64,
                property_id,
                tenant,
                check_in,
                check_out,
                total_amount: (p.price_per_night * (check_out - check_in)) as i128,
                status: BookingStatus::Pending,
                escrow_id: None,
            }
            &&& t.properties.len() == s.properties.len()
            &&& t.properties[property_id - 1] == PropertyView {
                id: p.id,
                owner: p.owner,
                title: p.title,
                price_per_night: p.price_per_night,
                available: false,
            }
            &&& forall|i: int| 0 <= i < s.properties.len() && i != property_id - 1 ==> #[trigger] t.properties[i] == s.properties[i]
        }),
{
    let t = book_outcome(s, tenant, property_id, check_in, check_out).0;
    assert(t.bookings.take(s.bookings.len() as int) =~= s.bookings);
}

} // verus!
