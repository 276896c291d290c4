use vstd::prelude::*;

verus! {

/// Byte-wise equality.
pub fn bytes_equal(a: &Vec<u8>, b: &Vec<u8>) -> (r: bool)
    ensures
        r == (a@ == b@),
{
    if a.len() != b.len() {
        return false;
    }
    let mut i: usize = 0;
    while i < a.len()
        invariant
            a.len() == b.len(),
            i <= a.len(),
            forall|k: int| 0 <= k < i ==> a@[k] == b@[k],
        decreases a.len() - i,
    {
        if a[i] != b[i] {
            return false;
        }
        i = i + 1;
    }
    assert(a@ =~= b@);
    true
}

/// A UTF-8 continuation byte (`10xxxxxx`), which carries no character of
/// its own.
pub open spec fn is_continuation_byte(b: u8) -> bool {
    0x80 <= b < 0xC0
}

/// The number of characters of UTF-8 text: its bytes that are not
/// continuation bytes.
pub open spec fn char_count(s: Seq<u8>) -> nat
    decreases s.len(),
{
    if s.len() == 0 {
        0
    } else {
        char_count(s.drop_last()) + if is_continuation_byte(s.last()) {
            0nat
        } else {
            1nat
        }
    }
}

/// Counts the characters of UTF-8 text.
pub fn utf8_char_count(s: &Vec<u8>) -> (n: usize)
    ensures
        n == char_count(s@),
{
    let mut n: usize = 0;
    let mut i: usize = 0;
    assert(s@.take(0) =~= Seq::<u8>::empty());
    while i < s.len()
        invariant
            i <= s.len(),
            n <= i,
            n == char_count(s@.take(i as int)),
        decreases s.len() - i,
    {
        assert(s@.take(i as int + 1).drop_last() =~= s@.take(i as int));
        assert(s@.take(i as int + 1).last() == s@[i as int]);
        let b = s[i];
        if !(0x80u8 <= b && b < 0xC0u8) {
            n = n + 1;
        }
        i = i + 1;
    }
    assert(s@.take(s@.len() as int) =~= s@);
    n
}

/// Counting characters of two pieces of text joined is adding their counts.
pub proof fn law_char_count_adds(a: Seq<u8>, b: Seq<u8>)
    ensures
        char_count(a + b) == char_count(a) + char_count(b),
    decreases b.len(),
{
    if b.len() == 0 {
        assert(a + b =~= a);
    } else {
        assert((a + b).drop_last() =~= a + b.drop_last());
        assert((a + b).last() == b.last());
        law_char_count_adds(a, b.drop_last());
    }
}

/// Every well-formed UTF-8 encoding of one character, of one to four
/// bytes, counts as exactly one character: an ASCII byte; a lead byte
/// C2..DF with one continuation byte (80..BF); a lead byte E0..EF with two;
/// a lead byte F0..F4 with three. With `law_char_count_adds` this makes the
/// count of valid UTF-8 text its number of Unicode scalar values.
pub proof fn law_one_encoded_character_counts_one(lead: u8, c1: u8, c2: u8, c3: u8)
    requires
        0x80 <= c1 <= 0xBF,
        0x80 <= c2 <= 0xBF,
        0x80 <= c3 <= 0xBF,
    ensures
        lead < 0x80 ==> char_count(seq![lead]) == 1,
        0xC2 <= lead <= 0xDF ==> char_count(seq![lead, c1]) == 1,
        0xE0 <= lead <= 0xEF ==> char_count(seq![lead, c1, c2]) == 1,
        0xF0 <= lead <= 0xF4 ==> char_count(seq![lead, c1, c2, c3]) == 1,
{
    let s1 = seq![lead];
    let s2 = seq![lead, c1];
    let s3 = seq![lead, c1, c2];
    let s4 = seq![lead, c1, c2, c3];
    assert(s1.drop_last() =~= Seq::<u8>::empty());
    assert(s2.drop_last() =~= s1);
    assert(s3.drop_last() =~= s2);
    assert(s4.drop_last() =~= s3);
    assert(char_count(Seq::<u8>::empty()) == 0);
    assert(char_count(s1) == if lead < 0x80 || lead >= 0xC0 { 1nat } else { 0nat });
    assert(char_count(s2) == char_count(s1));
    assert(char_count(s3) == char_count(s2));
    assert(char_count(s4) == char_count(s3));
}

} // verus!
