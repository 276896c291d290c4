use rentars::review::{Review, ReviewContract, ReviewError, MAX_COMMENT_LEN};

fn b(s: &str) -> Vec<u8> {
    s.as_bytes().to_vec()
}

#[test]
fn submitted_review_is_stored() {
    let mut c = ReviewContract::new();
    let id = c
        .submit_review(7, b("did:stellar:tenant"), b("did:stellar:owner"), 5, b("Fantastic property, exactly as described!"), 1_700_000_000)
        .unwrap();
    assert_eq!(id, 1);
    assert_eq!(c.review_count(), 1);
    let r = c.get_review(1).unwrap();
    assert_eq!(r.id, 1);
    assert_eq!(r.booking_id, 7);
    assert_eq!(r.reviewer_did, b("did:stellar:tenant"));
    assert_eq!(r.target_did, b("did:stellar:owner"));
    assert_eq!(r.rating, 5);
    assert_eq!(r.comment, b("Fantastic property, exactly as described!"));
    assert_eq!(r.timestamp, 1_700_000_000);
    assert_eq!(c.get_reputation(&b("did:stellar:owner")), 5);
}

#[test]
fn ids_increase() {
    let mut c = ReviewContract::new();
    assert_eq!(c.submit_review(1, b("a"), b("t"), 3, b(""), 0), Ok(1));
    assert_eq!(c.submit_review(2, b("a"), b("t"), 3, b(""), 0), Ok(2));
    assert_eq!(c.submit_review(1, b("b"), b("t"), 3, b(""), 0), Ok(3));
    assert_eq!(c.review_count(), 3);
}

#[test]
fn get_review_missing_is_none() {
    let mut c = ReviewContract::new();
    assert!(c.get_review(1).is_none());
    c.submit_review(1, b("a"), b("t"), 3, b(""), 0).unwrap();
    assert!(c.get_review(0).is_none());
    assert!(c.get_review(2).is_none());
}

#[test]
fn empty_dids_are_invalid_input() {
    let mut c = ReviewContract::new();
    assert_eq!(c.submit_review(1, b(""), b("t"), 3, b(""), 0), Err(ReviewError::InvalidInput));
    assert_eq!(c.submit_review(1, b("a"), b(""), 3, b(""), 0), Err(ReviewError::InvalidInput));
    // input is checked before the rating
    assert_eq!(c.submit_review(1, b(""), b("t"), 9, b(""), 0), Err(ReviewError::InvalidInput));
    assert_eq!(c.review_count(), 0);
}

#[test]
fn comment_length_limit() {
    let mut c = ReviewContract::new();
    let ok = vec![b'x'; MAX_COMMENT_LEN as usize];
    let long = vec![b'x'; MAX_COMMENT_LEN as usize + 1];
    assert_eq!(c.submit_review(1, b("a"), b("t"), 3, long, 0), Err(ReviewError::InvalidInput));
    assert_eq!(c.submit_review(1, b("a"), b("t"), 3, ok, 0), Ok(1));
}

#[test]
fn rating_must_be_one_to_five() {
    let mut c = ReviewContract::new();
    assert_eq!(c.submit_review(1, b("a"), b("t"), 0, b(""), 0), Err(ReviewError::InvalidRating));
    assert_eq!(c.submit_review(1, b("a"), b("t"), 6, b(""), 0), Err(ReviewError::InvalidRating));
    assert_eq!(c.submit_review(1, b("a"), b("t"), 1, b(""), 0), Ok(1));
    assert_eq!(c.submit_review(2, b("a"), b("t"), 5, b(""), 0), Ok(2));
}

#[test]
fn duplicate_review_is_refused() {
    let mut c = ReviewContract::new();
    c.submit_review(1, b("a"), b("t"), 4, b("good"), 0).unwrap();
    assert_eq!(c.submit_review(1, b("a"), b("other"), 2, b("again"), 5), Err(ReviewError::DuplicateReview));
    // rating is checked before duplicates
    assert_eq!(c.submit_review(1, b("a"), b("t"), 0, b(""), 0), Err(ReviewError::InvalidRating));
    assert_eq!(c.review_count(), 1);
    assert_eq!(c.get_reputation(&b("t")), 4);
}

#[test]
fn reviews_for_user_in_submission_order() {
    let mut c = ReviewContract::new();
    c.submit_review(1, b("a"), b("t"), 4, b("first"), 10).unwrap();
    c.submit_review(2, b("a"), b("u"), 1, b("other"), 11).unwrap();
    c.submit_review(3, b("b"), b("t"), 2, b("second"), 12).unwrap();
    let rs: Vec<Review> = c.get_reviews_for_user(&b("t"));
    assert_eq!(rs.len(), 2);
    assert_eq!(rs[0].id, 1);
    assert_eq!(rs[0].comment, b("first"));
    assert_eq!(rs[1].id, 3);
    assert_eq!(rs[1].comment, b("second"));
    assert_eq!(c.get_reviews_for_user(&b("u")).len(), 1);
    assert!(c.get_reviews_for_user(&b("nobody")).is_empty());
}

#[test]
fn reputation_is_the_floor_of_the_average() {
    let mut c = ReviewContract::new();
    assert_eq!(c.get_reputation(&b("t")), 0);
    c.submit_review(1, b("a"), b("t"), 5, b(""), 0).unwrap();
    c.submit_review(2, b("a"), b("t"), 4, b(""), 0).unwrap();
    assert_eq!(c.get_reputation(&b("t")), 4);
    c.submit_review(3, b("a"), b("t"), 1, b(""), 0).unwrap();
    assert_eq!(c.get_reputation(&b("t")), 3);
    c.submit_review(4, b("a"), b("u"), 1, b(""), 0).unwrap();
    c.submit_review(5, b("a"), b("u"), 2, b(""), 0).unwrap();
    assert_eq!(c.get_reputation(&b("u")), 1);
    assert_eq!(c.get_reputation(&b("t")), 3);
}

#[test]
fn error_codes() {
    assert_eq!(ReviewError::InvalidRating.code(), 1);
    assert_eq!(ReviewError::DuplicateReview.code(), 2);
    assert_eq!(ReviewError::UnauthorizedReviewer.code(), 3);
    assert_eq!(ReviewError::InvalidInput.code(), 4);
}

#[test]
fn has_review_matches_booking_and_reviewer() {
    let mut c = ReviewContract::new();
    c.submit_review(1, b("a"), b("t"), 4, b(""), 0).unwrap();
    assert!(c.has_review(1, &b("a")));
    assert!(!c.has_review(2, &b("a")));
    assert!(!c.has_review(1, &b("ab")));
}

#[test]
fn restore_checks_the_stored_reviews() {
    let r = |id: u64, booking_id: u64, reviewer: &str, rating: u32| Review {
        id,
        booking_id,
        reviewer_did: b(reviewer),
        target_did: b("t"),
        rating,
        comment: b(""),
        timestamp: 0,
    };
    let mut c = ReviewContract::restore(vec![r(1, 1, "a", 5), r(2, 1, "b", 3)]).unwrap();
    assert_eq!(c.get_reputation(&b("t")), 4);
    assert_eq!(c.submit_review(1, b("b"), b("t"), 3, b(""), 0), Err(ReviewError::DuplicateReview));
    assert_eq!(c.submit_review(2, b("b"), b("t"), 3, b(""), 0), Ok(3));
    assert!(ReviewContract::restore(vec![r(1, 1, "a", 5), r(2, 1, "a", 3)]).is_none());
    assert!(ReviewContract::restore(vec![r(1, 1, "a", 6)]).is_none());
    assert!(ReviewContract::restore(vec![r(2, 1, "a", 5)]).is_none());
    assert!(ReviewContract::restore(vec![r(1, 1, "", 5)]).is_none());
}

#[test]
fn comment_limit_counts_characters() {
    let mut c = ReviewContract::new();
    let accented_300 = "é".repeat(300);
    assert_eq!(accented_300.len(), 600);
    assert_eq!(c.submit_review(1, b("did:a"), b("did:b"), 4, b(&accented_300), 0), Ok(1));
    assert_eq!(c.get_review(1).unwrap().comment, b(&accented_300));
    let accented_500 = "é".repeat(500);
    assert_eq!(c.submit_review(2, b("did:a"), b("did:b"), 4, b(&accented_500), 0), Ok(2));
    let accented_501 = "é".repeat(501);
    assert_eq!(c.submit_review(3, b("did:a"), b("did:b"), 4, b(&accented_501), 0), Err(ReviewError::InvalidInput));
    let mixed = format!("{}{}", "x".repeat(499), "€");
    assert_eq!(c.submit_review(4, b("did:a"), b("did:b"), 4, b(&mixed), 0), Ok(3));
}

#[test]
fn rating_equal_to_reputation_keeps_it() {
    let mut c = ReviewContract::new();
    c.submit_review(1, b("a"), b("t"), 5, b(""), 0).unwrap();
    c.submit_review(2, b("a"), b("t"), 2, b(""), 0).unwrap();
    let a = c.get_reputation(&b("t"));
    assert_eq!(a, 3);
    c.submit_review(3, b("a"), b("t"), a, b(""), 0).unwrap();
    assert_eq!(c.get_reputation(&b("t")), 3);
    c.submit_review(4, b("a"), b("t"), 5, b(""), 0).unwrap();
    assert!(c.get_reputation(&b("t")) >= 3);
}
