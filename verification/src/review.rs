use vstd::prelude::*;
use crate::bytes::{bytes_equal, char_count, utf8_char_count};

verus! {

/// Longest accepted comment, in characters of its UTF-8 text.
pub const MAX_COMMENT_LEN: u32 = 500;

/// Lowest star rating.
pub const MIN_RATING: u32 = 1;

/// Highest star rating.
pub const MAX_RATING: u32 = 5;

/// Why a review is refused.
#[derive(Clone, Copy, Debug, PartialEq, Eq, Structural)]
pub enum ReviewError {
    /// The rating is outside 1 to 5.
    InvalidRating,
    /// This author already has a review for this booking.
    DuplicateReview,
    /// Reserved for a caller-authentication check.
    UnauthorizedReviewer,
    /// An empty DID, or a comment longer than the limit.
    InvalidInput,
}

impl ReviewError {
    /// The numeric error code of the variant.
    pub fn code(&self) -> (c: u32)
        ensures
            c == match self {
                ReviewError::InvalidRating => 1u32,
                ReviewError::DuplicateReview => 2u32,
                ReviewError::UnauthorizedReviewer => 3u32,
                ReviewError::InvalidInput => 4u32,
            },
    {
        match self {
            ReviewError::InvalidRating => 1,
            ReviewError::DuplicateReview => 2,
            ReviewError::UnauthorizedReviewer => 3,
            ReviewError::InvalidInput => 4,
        }
    }
}

/// A review of one account, tied to one booking. DIDs and the comment are
/// held as the bytes of their on-ledger string form.
#[derive(Clone, Debug)]
pub struct Review {
    pub id: u64,
    pub booking_id: u64,
    pub reviewer_did: Vec<u8>,
    pub target_did: Vec<u8>,
    /// Star rating, 1 to 5.
    pub rating: u32,
    pub comment: Vec<u8>,
    /// Ledger time of submission, in Unix seconds.
    pub timestamp: u64,
}

pub struct ReviewView {
    pub id: u64,
    pub booking_id: u64,
    pub reviewer_did: Seq<u8>,
    pub target_did: Seq<u8>,
    pub rating: u32,
    pub comment: Seq<u8>,
    pub timestamp: u64,
}

impl View for Review {
    type V = ReviewView;

    open spec fn view(&self) -> ReviewView {
        ReviewView {
            id: self.id,
            booking_id: self.booking_id,
            reviewer_did: self.reviewer_did@,
            target_did: self.target_did@,
            rating: self.rating,
            comment: self.comment@,
            timestamp: self.timestamp,
        }
    }
}

impl Review {
    /// A field-by-field copy.
    pub fn duplicate(&self) -> (r: Review)
        ensures
            r@ == self@,
    {
        Review {
            id: self.id,
            booking_id: self.booking_id,
            reviewer_did: self.reviewer_did.clone(),
            target_did: self.target_did.clone(),
            rating: self.rating,
            comment: self.comment.clone(),
            timestamp: self.timestamp,
        }
    }
}

/// The review with the given id: reviews are kept in id order, id `n` is the
/// `n`-th.
pub open spec fn review_by_id(s: Seq<ReviewView>, id: u64) -> Option<ReviewView> {
    if 1 <= id <= s.len() {
        Some(s[id - 1])
    } else {
        None
    }
}

/// A stored review of the booking has this author.
pub open spec fn has_review(s: Seq<ReviewView>, booking_id: u64, reviewer_did: Seq<u8>) -> bool {
    exists|i: int|
        0 <= i < s.len() && #[trigger] s[i].booking_id == booking_id && s[i].reviewer_did
            == reviewer_did
}

/// Whether a review may be submitted, and if not, why: the checks run in
/// this order.
pub open spec fn submit_verdict(
    s: Seq<ReviewView>,
    booking_id: u64,
    reviewer_did: Seq<u8>,
    target_did: Seq<u8>,
    rating: u32,
    comment: Seq<u8>,
) -> Result<(), ReviewError> {
    if reviewer_did.len() == 0 || target_did.len() == 0 {
        Err(ReviewError::InvalidInput)
    } else if char_count(comment) > MAX_COMMENT_LEN {
        Err(ReviewError::InvalidInput)
    } else if rating < MIN_RATING || rating > MAX_RATING {
        Err(ReviewError::InvalidRating)
    } else if has_review(s, booking_id, reviewer_did) {
        Err(ReviewError::DuplicateReview)
    } else {
        Ok(())
    }
}

/// The reviews after a submission, and the new review's id or the reason it
/// is refused.
pub open spec fn submit_outcome(
    s: Seq<ReviewView>,
    booking_id: u64,
    reviewer_did: Seq<u8>,
    target_did: Seq<u8>,
    rating: u32,
    comment: Seq<u8>,
    timestamp: u64,
) -> (Seq<ReviewView>, Result<u64, ReviewError>) {
    match submit_verdict(s, booking_id, reviewer_did, target_did, rating, comment) {
        Err(e) => (s, Err(e)),
        Ok(_) => {
            let id = (s.len() + 1) as u64;
            (
                s.push(
                    ReviewView { id, booking_id, reviewer_did, target_did, rating, comment, timestamp },
                ),
                Ok(id),
            )
        },
    }
}

/// The reviews written about `target_did`, in submission order.
pub open spec fn reviews_about(s: Seq<ReviewView>, target_did: Seq<u8>) -> Seq<ReviewView>
    decreases s.len(),
{
    if s.len() == 0 {
        Seq::empty()
    } else {
        let earlier = reviews_about(s.drop_last(), target_did);
        if s.last().target_did == target_did {
            earlier.push(s.last())
        } else {
            earlier
        }
    }
}

/// The sum of the ratings.
pub open spec fn rating_total(rs: Seq<ReviewView>) -> int
    decreases rs.len(),
{
    if rs.len() == 0 {
        0
    } else {
        rating_total(rs.drop_last()) + rs.last().rating
    }
}

/// The average rating about `target_did`, rounded down; 0 when there is no
/// review about it.
pub open spec fn reputation(s: Seq<ReviewView>, target_did: Seq<u8>) -> u32 {
    let rs = reviews_about(s, target_did);
    if rs.len() == 0 {
        0
    } else {
        (rating_total(rs) / (rs.len() as int)) as u32
    }
}

/// Well-formedness of the stored reviews: ids are positions, every review
/// passed the submission checks, and no author has two reviews for one
/// booking.
pub open spec fn reviews_wf(s: Seq<ReviewView>) -> bool {
    &&& forall|i: int|
        #![trigger s[i]]
        0 <= i < s.len() ==> {
            &&& s[i].id == i + 1
            &&& MIN_RATING <= s[i].rating <= MAX_RATING
            &&& s[i].reviewer_did.len() > 0
            &&& s[i].target_did.len() > 0
            &&& char_count(s[i].comment) <= MAX_COMMENT_LEN
        }
    &&& forall|i: int, j: int|
        #![trigger s[i], s[j]]
        0 <= i < j < s.len() && s[i].booking_id == s[j].booking_id ==> s[i].reviewer_did
            != s[j].reviewer_did
}

/// A submission keeps the stored reviews well formed.
pub proof fn lemma_submit_keeps_wf(
    s: Seq<ReviewView>,
    booking_id: u64,
    reviewer_did: Seq<u8>,
    target_did: Seq<u8>,
    rating: u32,
    comment: Seq<u8>,
    timestamp: u64,
)
    requires
        reviews_wf(s),
        s.len() < u64::MAX,
    ensures
        reviews_wf(submit_outcome(s, booking_id, reviewer_did, target_did, rating, comment, timestamp).0),
{
    let t = submit_outcome(s, booking_id, reviewer_did, target_did, rating, comment, timestamp).0;
    if t.len() > s.len() {
        assert forall|i: int, j: int|
            #![trigger t[i], t[j]]
            0 <= i < j < t.len() && t[i].booking_id == t[j].booking_id implies t[i].reviewer_did
                != t[j].reviewer_did by {
            if j == s.len() {
                assert(t[i] == s[i]);
                assert(!has_review(s, booking_id, reviewer_did));
            } else {
                assert(t[i] == s[i] && t[j] == s[j]);
            }
        }
        assert forall|i: int| #![trigger t[i]] 0 <= i < t.len() implies {
            &&& t[i].id == i + 1
            &&& MIN_RATING <= t[i].rating <= MAX_RATING
            &&& t[i].reviewer_did.len() > 0
            &&& t[i].target_did.len() > 0
            &&& char_count(t[i].comment) <= MAX_COMMENT_LEN
        } by {
            if i < s.len() {
                assert(t[i] == s[i]);
            }
        }
    }
}

/// A prefix's reviews about a target are a prefix of the next one's.
proof fn lemma_reviews_about_step(s: Seq<ReviewView>, target_did: Seq<u8>, i: int)
    requires
        0 <= i < s.len(),
    ensures
        reviews_about(s.take(i + 1), target_did) == if s[i].target_did == target_did {
            reviews_about(s.take(i), target_did).push(s[i])
        } else {
            reviews_about(s.take(i), target_did)
        },
{
    assert(s.take(i + 1).drop_last() =~= s.take(i));
    assert(s.take(i + 1).last() == s[i]);
}

/// Adding one review to a list adds its rating to the total.
proof fn lemma_rating_total_push(rs: Seq<ReviewView>, r: ReviewView)
    ensures
        rating_total(rs.push(r)) == rating_total(rs) + r.rating,
{
    assert(rs.push(r).drop_last() =~= rs);
}

/// The review contract: every review submitted so far.
pub struct ReviewContract {
    reviews: Vec<Review>,
}

impl View for ReviewContract {
    type V = Seq<ReviewView>;

    closed spec fn view(&self) -> Seq<ReviewView> {
        self.reviews@.map_values(|r: Review| r@)
    }
}

impl ReviewContract {
    /// A contract with no reviews.
    pub fn new() -> (c: Self)
        ensures
            c@.len() == 0,
            reviews_wf(c@),
    {
        let c = ReviewContract { reviews: Vec::new() };
        assert(c@ =~= Seq::<ReviewView>::empty());
        c
    }

    /// The contract made of stored reviews, if they form a well-formed
    /// state; `None` otherwise.
    pub fn restore(reviews: Vec<Review>) -> (r: Option<Self>)
        ensures
            match r {
                Some(c) => reviews_wf(reviews@.map_values(|x: Review| x@)) && c@ == reviews@.map_values(|x: Review| x@),
                None => !reviews_wf(reviews@.map_values(|x: Review| x@)),
            },
    {
        let c = ReviewContract { reviews };
        if c.is_well_formed() {
            Some(c)
        } else {
            None
        }
    }

    /// Checks the well-formedness of the stored reviews.
    fn is_well_formed(&self) -> (b: bool)
        ensures
            b == reviews_wf(self@),
    {
        let ghost s = self@;
        let n = self.reviews.len();
        let mut i: usize = 0;
        while i < n
            invariant
                n == self.reviews.len(),
                s == self@,
                i <= n,
                forall|k: int|
                    #![trigger s[k]]
                    0 <= k < i ==> {
                        &&& s[k].id == k + 1
                        &&& MIN_RATING <= s[k].rating <= MAX_RATING
                        &&& s[k].reviewer_did.len() > 0
                        &&& s[k].target_did.len() > 0
                        &&& char_count(s[k].comment) <= MAX_COMMENT_LEN
                    },
                forall|k1: int, k2: int|
                    #![trigger s[k1], s[k2]]
                    0 <= k1 < k2 < i && s[k1].booking_id == s[k2].booking_id ==> s[k1].reviewer_did
                        != s[k2].reviewer_did,
            decreases n - i,
        {
            assert(s[i as int] == self.reviews@[i as int]@);
            let r = &self.reviews[i];
            if r.id != i as u64 + 1 || r.rating < MIN_RATING || r.rating > MAX_RATING
                || r.reviewer_did.len() == 0 || r.target_did.len() == 0
                || utf8_char_count(&r.comment) > MAX_COMMENT_LEN as usize {
                return false;
            }
            let mut k: usize = 0;
            while k < i
                invariant
                    n == self.reviews.len(),
                    s == self@,
                    k <= i < n,
                    forall|k1: int|
                        #![trigger s[k1]]
                        0 <= k1 < k && s[k1].booking_id == s[i as int].booking_id ==> s[k1].reviewer_did
                            != s[i as int].reviewer_did,
                decreases i - k,
            {
                assert(s[k as int] == self.reviews@[k as int]@);
                if self.reviews[k].booking_id == self.reviews[i].booking_id
                    && bytes_equal(&self.reviews[k].reviewer_did, &self.reviews[i].reviewer_did) {
                    assert(s[k as int].booking_id == s[i as int].booking_id && s[k as int].reviewer_did == s[i as int].reviewer_did);
                    return false;
                }
                k = k + 1;
            }
            i = i + 1;
        }
        true
    }

    /// Number of reviews submitted so far (the id of the latest one).
    pub fn review_count(&self) -> (n: u64)
        ensures
            n == self@.len(),
    {
        let n: usize = self.reviews.len();
        n as u64
    }

    /// Whether `reviewer_did` already reviewed the booking.
    pub fn has_review(&self, booking_id: u64, reviewer_did: &Vec<u8>) -> (found: bool)
        ensures
            found == has_review(self@, booking_id, reviewer_did@),
    {
        let mut i: usize = 0;
        while i < self.reviews.len()
            invariant
                i <= self.reviews.len(),
                forall|k: int|
                    0 <= k < i ==> !(#[trigger] self@[k].booking_id == booking_id && self@[k].reviewer_did
                        == reviewer_did@),
            decreases self.reviews.len() - i,
        {
            assert(self@[i as int] == self.reviews@[i as int]@);
            if self.reviews[i].booking_id == booking_id && bytes_equal(&self.reviews[i].reviewer_did, reviewer_did) {
                assert(self@[i as int].booking_id == booking_id && self@[i as int].reviewer_did == reviewer_did@);
                return true;
            }
            i = i + 1;
        }
        false
    }

    /// Submits a review of `target_did` by `reviewer_did` for a booking, at
    /// ledger time `timestamp`, and returns the new review's id. Both DIDs
    /// must be non-empty, the comment at most 500 characters, the rating 1 to 5,
    /// and the author must not already have a review for this booking.
    pub fn submit_review(
        &mut self,
        booking_id: u64,
        reviewer_did: Vec<u8>,
        target_did: Vec<u8>,
        rating: u32,
        comment: Vec<u8>,
        timestamp: u64,
    ) -> (r: Result<u64, ReviewError>)
        requires
            reviews_wf(old(self)@),
            old(self)@.len() < u64::MAX,
        ensures
            (final(self)@, r) == submit_outcome(
                old(self)@,
                booking_id,
                reviewer_did@,
                target_did@,
                rating,
                comment@,
                timestamp,
            ),
            reviews_wf(final(self)@),
    {
        proof {
            lemma_submit_keeps_wf(self@, booking_id, reviewer_did@, target_did@, rating, comment@, timestamp);
        }
        if reviewer_did.len() == 0 || target_did.len() == 0 {
            return Err(ReviewError::InvalidInput);
        }
        if utf8_char_count(&comment) > MAX_COMMENT_LEN as usize {
            return Err(ReviewError::InvalidInput);
        }
        if rating < MIN_RATING || rating > MAX_RATING {
            return Err(ReviewError::InvalidRating);
        }
        if self.has_review(booking_id, &reviewer_did) {
            return Err(ReviewError::DuplicateReview);
        }
        let id = self.reviews.len() as u64 + 1;
        self.reviews.push(
            Review { id, booking_id, reviewer_did, target_did, rating, comment, timestamp },
        );
        proof {
            let t = submit_outcome(old(self)@, booking_id, reviewer_did@, target_did@, rating, comment@, timestamp).0;
            assert(self@ =~= t);
        }
        Ok(id)
    }

    /// The average rating of the reviews about `target_did`, rounded down;
    /// 0 when there is none.
    pub fn get_reputation(&self, target_did: &Vec<u8>) -> (avg: u32)
        requires
            reviews_wf(self@),
        ensures
            avg == reputation(self@, target_did@),
    {
        let mut total: u128 = 0;
        let mut count: usize = 0;
        let mut i: usize = 0;
        assert(self@.take(0) =~= Seq::<ReviewView>::empty());
        while i < self.reviews.len()
            invariant
                i <= self.reviews.len(),
                reviews_wf(self@),
                count <= i,
                count == reviews_about(self@.take(i as int), target_did@).len(),
                total == rating_total(reviews_about(self@.take(i as int), target_did@)),
                total <= MAX_RATING * count,
            decreases self.reviews.len() - i,
        {
            proof {
                lemma_reviews_about_step(self@, target_did@, i as int);
                lemma_rating_total_push(reviews_about(self@.take(i as int), target_did@), self@[i as int]);
            }
            assert(self@[i as int] == self.reviews@[i as int]@);
            if bytes_equal(&self.reviews[i].target_did, target_did) {
                total = total + self.reviews[i].rating as u128;
                count = count + 1;
            }
            i = i + 1;
        }
        assert(self@.take(self@.len() as int) =~= self@);
        if count == 0 {
            return 0;
        }
        (total / (count as u128)) as u32
    }

    /// The review with the given id, if there is one.
    pub fn get_review(&self, review_id: u64) -> (r: Option<Review>)
        ensures
            match r {
                Some(x) => review_by_id(self@, review_id) == Some(x@),
                None => review_by_id(self@, review_id) is None,
            },
    {
        if review_id == 0 || review_id > self.reviews.len() as u64 {
            return None;
        }
        let idx = (review_id - 1) as usize;
        Some(self.reviews[idx].duplicate())
    }

    /// Every review written about `target_did`, in submission order.
    pub fn get_reviews_for_user(&self, target_did: &Vec<u8>) -> (r: Vec<Review>)
        ensures
            r@.map_values(|x: Review| x@) == reviews_about(self@, target_did@),
    {
        let mut out: Vec<Review> = Vec::new();
        let mut i: usize = 0;
        assert(self@.take(0) =~= Seq::<ReviewView>::empty());
        while i < self.reviews.len()
            invariant
                i <= self.reviews.len(),
                out@.map_values(|x: Review| x@) == reviews_about(self@.take(i as int), target_did@),
            decreases self.reviews.len() - i,
        {
            proof {
                lemma_reviews_about_step(self@, target_did@, i as int);
            }
            if bytes_equal(&self.reviews[i].target_did, target_did) {
                let copy = self.reviews[i].duplicate();
                out.push(copy);
                assert(out@.map_values(|x: Review| x@) =~= reviews_about(self@.take(i as int), target_did@).push(self@[i as int]));
            }
            i = i + 1;
        }
        assert(self@.take(self@.len() as int) =~= self@);
        out
    }
}

} // verus!

verus! {

/// Every rating in the list is between 1 and 5.
pub open spec fn ratings_in_range(rs: Seq<ReviewView>) -> bool {
    forall|i: int| #![trigger rs[i]] 0 <= i < rs.len() ==> MIN_RATING <= rs[i].rating <= MAX_RATING
}

/// The reviews about a target are among the stored reviews, so their
/// ratings are in range too.
proof fn lemma_reviews_about_ratings(s: Seq<ReviewView>, target_did: Seq<u8>)
    requires
        ratings_in_range(s),
    ensures
        ratings_in_range(reviews_about(s, target_did)),
        forall|i: int| #![trigger reviews_about(s, target_did)[i]]
            0 <= i < reviews_about(s, target_did).len() ==> reviews_about(s, target_did)[i].target_did == target_did,
    decreases s.len(),
{
    if s.len() > 0 {
        let p = s.drop_last();
        assert forall|i: int| #![trigger p[i]] 0 <= i < p.len() implies MIN_RATING <= p[i].rating <= MAX_RATING by {
            assert(p[i] == s[i]);
        }
        lemma_reviews_about_ratings(p, target_did);
        assert(s.last() == s[s.len() - 1]);
    }
}

/// A total of ratings in range lies between the count and five times it.
proof fn lemma_rating_total_bounds(rs: Seq<ReviewView>)
    requires
        ratings_in_range(rs),
    ensures
        rs.len() <= rating_total(rs) <= MAX_RATING * rs.len(),
    decreases rs.len(),
{
    if rs.len() > 0 {
        let p = rs.drop_last();
        assert forall|i: int| #![trigger p[i]] 0 <= i < p.len() implies MIN_RATING <= p[i].rating <= MAX_RATING by {
            assert(p[i] == rs[i]);
        }
        lemma_rating_total_bounds(p);
        assert(rs.last() == rs[rs.len() - 1]);
    }
}

/// A review that was accepted can be read back under the id it was given,
/// which is one more than the number of reviews before it, with exactly
/// the submitted fields.
pub proof fn law_submitted_review_is_readable(
    s: Seq<ReviewView>,
    booking_id: u64,
    reviewer_did: Seq<u8>,
    target_did: Seq<u8>,
    rating: u32,
    comment: Seq<u8>,
    timestamp: u64,
)
    requires
        reviews_wf(s),
        s.len() < u64::MAX,
    ensures
        ({
            let (t, r) = submit_outcome(s, booking_id, reviewer_did, target_did, rating, comment, timestamp);
            r is Ok ==> {
                &&& r->Ok_0 == s.len() + 1
                &&& review_by_id(t, r->Ok_0) == Some(
                    ReviewView { id: r->Ok_0, booking_id, reviewer_did, target_did, rating, comment, timestamp },
                )
            }
        }),
{
}

/// A submission with valid input is taken exactly when its author has no
/// review yet for that booking.
pub proof fn law_valid_input_is_accepted_unless_duplicate(
    s: Seq<ReviewView>,
    booking_id: u64,
    reviewer_did: Seq<u8>,
    target_did: Seq<u8>,
    rating: u32,
    comment: Seq<u8>,
    timestamp: u64,
)
    requires
        reviewer_did.len() > 0,
        target_did.len() > 0,
        char_count(comment) <= MAX_COMMENT_LEN,
        MIN_RATING <= rating <= MAX_RATING,
    ensures
        submit_outcome(s, booking_id, reviewer_did, target_did, rating, comment, timestamp).1 is Ok
            <==> !has_review(s, booking_id, reviewer_did),
{
}

/// Once an author's review for a booking is stored, every later submission
/// with valid input by that author for that booking is refused as a
/// duplicate.
pub proof fn law_one_review_per_booking_and_reviewer(
    s: Seq<ReviewView>,
    booking_id: u64,
    reviewer_did: Seq<u8>,
    target_did: Seq<u8>,
    rating: u32,
    comment: Seq<u8>,
    timestamp: u64,
    target_did2: Seq<u8>,
    rating2: u32,
    comment2: Seq<u8>,
    timestamp2: u64,
)
    requires
        submit_outcome(s, booking_id, reviewer_did, target_did, rating, comment, timestamp).1 is Ok,
        target_did2.len() > 0,
        char_count(comment2) <= MAX_COMMENT_LEN,
        MIN_RATING <= rating2 <= MAX_RATING,
    ensures
        ({
            let t = submit_outcome(s, booking_id, reviewer_did, target_did, rating, comment, timestamp).0;
            submit_outcome(t, booking_id, reviewer_did, target_did2, rating2, comment2, timestamp2)
                == (t, Err::<u64, ReviewError>(ReviewError::DuplicateReview))
        }),
{
    let t = submit_outcome(s, booking_id, reviewer_did, target_did, rating, comment, timestamp).0;
    let n = s.len() as int;
    assert(t[n].booking_id == booking_id && t[n].reviewer_did == reviewer_did);
    assert(has_review(t, booking_id, reviewer_did));
}

/// A refused submission leaves the stored reviews unchanged.
pub proof fn law_refused_submission_changes_nothing(
    s: Seq<ReviewView>,
    booking_id: u64,
    reviewer_did: Seq<u8>,
    target_did: Seq<u8>,
    rating: u32,
    comment: Seq<u8>,
    timestamp: u64,
)
    ensures
        submit_outcome(s, booking_id, reviewer_did, target_did, rating, comment, timestamp).1 is Err
            ==> submit_outcome(s, booking_id, reviewer_did, target_did, rating, comment, timestamp).0 == s,
{
}

/// An accepted review is appended to the reviews about its target, and the
/// reviews about every other account stay as they were.
pub proof fn law_submission_extends_only_its_target(
    s: Seq<ReviewView>,
    booking_id: u64,
    reviewer_did: Seq<u8>,
    target_did: Seq<u8>,
    rating: u32,
    comment: Seq<u8>,
    timestamp: u64,
    other: Seq<u8>,
)
    requires
        submit_outcome(s, booking_id, reviewer_did, target_did, rating, comment, timestamp).1 is Ok,
        other != target_did,
    ensures
        ({
            let (t, r) = submit_outcome(s, booking_id, reviewer_did, target_did, rating, comment, timestamp);
            &&& reviews_about(t, target_did) == reviews_about(s, target_did).push(
                ReviewView { id: r->Ok_0, booking_id, reviewer_did, target_did, rating, comment, timestamp },
            )
            &&& reviews_about(t, other) == reviews_about(s, other)
        }),
{
    let t = submit_outcome(s, booking_id, reviewer_did, target_did, rating, comment, timestamp).0;
    assert(t.drop_last() =~= s);
}

/// A reputation is 0 for an account without reviews, and otherwise an
/// average star rating between 1 and 5.
pub proof fn law_reputation_range(s: Seq<ReviewView>, target_did: Seq<u8>)
    requires
        reviews_wf(s),
    ensures
        reviews_about(s, target_did).len() == 0 ==> reputation(s, target_did) == 0,
        reviews_about(s, target_did).len() > 0 ==> MIN_RATING <= reputation(s, target_did) <= MAX_RATING,
{
    assert forall|i: int| #![trigger s[i]] 0 <= i < s.len() implies MIN_RATING <= s[i].rating <= MAX_RATING by {}
    lemma_reviews_about_ratings(s, target_did);
    let rs = reviews_about(s, target_did);
    lemma_rating_total_bounds(rs);
    if rs.len() > 0 {
        let n = rs.len() as int;
        let total = rating_total(rs);
        assert(1 <= total / n <= 5) by (nonlinear_arith)
            requires
                n > 0,
                n <= total <= 5 * n,
        {
        }
    }
}

/// Shape of the reviews about a target when ids are positions: every
/// entry has the target and is the stored review under its id, ids rise
/// strictly, and every stored review with the target is among them.
proof fn lemma_reviews_about_shape(s: Seq<ReviewView>, target_did: Seq<u8>)
    requires
        forall|k: int| #![trigger s[k]] 0 <= k < s.len() ==> s[k].id == k + 1,
    ensures
        ({
            let rs = reviews_about(s, target_did);
            &&& forall|i: int|
                #![trigger rs[i]]
                0 <= i < rs.len() ==> {
                    &&& rs[i].target_did == target_did
                    &&& 1 <= rs[i].id <= s.len()
                    &&& review_by_id(s, rs[i].id) == Some(rs[i])
                }
            &&& forall|i: int, j: int| #![trigger rs[i], rs[j]] 0 <= i < j < rs.len() ==> rs[i].id < rs[j].id
            &&& forall|k: int|
                #![trigger s[k]]
                0 <= k < s.len() && s[k].target_did == target_did ==> exists|i: int|
                    0 <= i < rs.len() && #[trigger] rs[i] == s[k]
        }),
    decreases s.len(),
{
    if s.len() > 0 {
        let p = s.drop_last();
        assert forall|k: int| #![trigger p[k]] 0 <= k < p.len() implies p[k].id == k + 1 by {
            assert(p[k] == s[k]);
        }
        lemma_reviews_about_shape(p, target_did);
        let rp = reviews_about(p, target_did);
        let rs = reviews_about(s, target_did);
        let n = s.len() as int;
        assert(s.last() == s[n - 1]);
        assert forall|i: int| #![trigger rs[i]] 0 <= i < rs.len() implies {
            &&& rs[i].target_did == target_did
            &&& 1 <= rs[i].id <= s.len()
            &&& review_by_id(s, rs[i].id) == Some(rs[i])
        } by {
            if i < rp.len() {
                assert(rs[i] == rp[i]);
                assert(p[rp[i].id - 1] == s[rp[i].id - 1]);
            }
        }
        assert forall|i: int, j: int| #![trigger rs[i], rs[j]] 0 <= i < j < rs.len() implies rs[i].id < rs[j].id by {
            assert(rs[i] == rp[i]);
            if j < rp.len() {
                assert(rs[j] == rp[j]);
            }
        }
        assert forall|k: int|
            #![trigger s[k]]
            0 <= k < s.len() && s[k].target_did == target_did implies exists|i: int|
                0 <= i < rs.len() && #[trigger] rs[i] == s[k] by {
            if k < n - 1 {
                assert(p[k] == s[k]);
                let i = choose|i: int| 0 <= i < rp.len() && #[trigger] rp[i] == p[k];
                assert(rs[i] == rp[i]);
            } else {
                assert(rs[rp.len() as int] == s[k]);
            }
        }
    }
}

/// The reviews about an account are exactly the stored reviews with that
/// target, each once and in increasing id order, and each is what a read
/// by its id gives.
pub proof fn law_reviews_about_are_exactly_its_reviews(s: Seq<ReviewView>, target_did: Seq<u8>)
    requires
        reviews_wf(s),
    ensures
        ({
            let rs = reviews_about(s, target_did);
            &&& forall|i: int|
                #![trigger rs[i]]
                0 <= i < rs.len() ==> rs[i].target_did == target_did && review_by_id(s, rs[i].id) == Some(rs[i])
            &&& forall|i: int, j: int| #![trigger rs[i], rs[j]] 0 <= i < j < rs.len() ==> rs[i].id < rs[j].id
            &&& forall|k: int|
                #![trigger s[k]]
                0 <= k < s.len() && s[k].target_did == target_did ==> exists|i: int|
                    0 <= i < rs.len() && #[trigger] rs[i] == s[k]
        }),
{
    lemma_reviews_about_shape(s, target_did);
}

/// A new rating at or above an account's reputation keeps the reputation
/// at least as high, and one at or below keeps it at most as high; a
/// rating equal to it leaves it unchanged.
pub proof fn law_new_rating_moves_reputation_toward_it(
    s: Seq<ReviewView>,
    booking_id: u64,
    reviewer_did: Seq<u8>,
    target_did: Seq<u8>,
    rating: u32,
    comment: Seq<u8>,
    timestamp: u64,
)
    requires
        reviews_wf(s),
        s.len() < u64::MAX,
        reviews_about(s, target_did).len() > 0,
        submit_outcome(s, booking_id, reviewer_did, target_did, rating, comment, timestamp).1 is Ok,
    ensures
        ({
            let t = submit_outcome(s, booking_id, reviewer_did, target_did, rating, comment, timestamp).0;
            let a = reputation(s, target_did);
            &&& rating >= a ==> reputation(t, target_did) >= a
            &&& rating <= a ==> reputation(t, target_did) <= a
        }),
{
    let t = submit_outcome(s, booking_id, reviewer_did, target_did, rating, comment, timestamp).0;
    let rs = reviews_about(s, target_did);
    let new_review = t[s.len() as int];
    assert(t.drop_last() =~= s);
    assert(reviews_about(t, target_did) == rs.push(new_review));
    lemma_rating_total_push(rs, new_review);
    lemma_submit_keeps_wf(s, booking_id, reviewer_did, target_did, rating, comment, timestamp);
    law_reputation_range(s, target_did);
    law_reputation_range(t, target_did);
    assert forall|i: int| #![trigger s[i]] 0 <= i < s.len() implies MIN_RATING <= s[i].rating <= MAX_RATING by {}
    lemma_reviews_about_ratings(s, target_did);
    lemma_rating_total_bounds(rs);
    let n = rs.len() as int;
    let total = rating_total(rs);
    let x = rating as int;
    let q = total / n;
    assert(1 <= q <= 5) by (nonlinear_arith)
        requires
            n > 0,
            n <= total <= 5 * n,
            q == total / n,
    {
    }
    assert(reputation(s, target_did) == q);
    let q2 = (total + x) / (n + 1);
    assert(x >= q ==> q2 >= q) by (nonlinear_arith)
        requires
            n > 0,
            total >= 0,
            q == total / n,
            q2 == (total + x) / (n + 1),
    {
    }
    assert(x <= q ==> q2 <= q) by (nonlinear_arith)
        requires
            n > 0,
            total >= 0,
            x >= 0,
            q == total / n,
            q2 == (total + x) / (n + 1),
    {
    }
    assert(rating_total(reviews_about(t, target_did)) == total + x);
    assert(reviews_about(t, target_did).len() == n + 1);
    assert(0 <= q2 <= 5) by (nonlinear_arith)
        requires
            n > 0,
            0 <= total <= 5 * n,
            0 <= x <= 5,
            q2 == (total + x) / (n + 1),
    {
    }
    assert(reputation(t, target_did) == q2);
}

/// A submission with valid input is refused as a duplicate exactly when a
/// stored review has the same booking and the same author; who was
/// reviewed before plays no part. Otherwise it is stored under the next id.
pub proof fn law_duplicate_means_same_booking_and_author(
    s: Seq<ReviewView>,
    booking_id: u64,
    reviewer_did: Seq<u8>,
    target_did: Seq<u8>,
    rating: u32,
    comment: Seq<u8>,
    timestamp: u64,
)
    requires
        s.len() < u64::MAX,
        reviewer_did.len() > 0,
        target_did.len() > 0,
        char_count(comment) <= MAX_COMMENT_LEN,
        1 <= rating <= 5,
    ensures
        ({
            let (t, r) = submit_outcome(s, booking_id, reviewer_did, target_did, rating, comment, timestamp);
            &&& r == Err::<u64, ReviewError>(ReviewError::DuplicateReview) <==> exists|i: int|
                0 <= i < s.len() && #[trigger] s[i].booking_id == booking_id && s[i].reviewer_did == reviewer_did
            &&& r is Ok <==> !exists|i: int|
                0 <= i < s.len() && #[trigger] s[i].booking_id == booking_id && s[i].reviewer_did == reviewer_did
            &&& r is Ok ==> r->Ok_0 == s.len() + 1 && t == s.push(
                ReviewView { id: (s.len() + 1) as u64, booking_id, reviewer_did, target_did, rating, comment, timestamp },
            )
        }),
{
}

} // verus!
