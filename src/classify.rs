//! Document type and revision number, both read from a file name.
use vstd::prelude::*;

use crate::text::{seq_contains, str_contains};

verus! {

/// The kind of a document, told by the extension text in its name.
#[derive(PartialEq, Eq, Structural, Clone, Copy, Debug)]
pub enum DocType {
    PDF,
    WordDoc,
    Other,
}

/// Word documents are recognised first, so `a.pdf.docx` is a Word document.
pub open spec fn spec_doc_type(name: Seq<char>) -> DocType {
    if seq_contains(name, ".docx"@) {
        DocType::WordDoc
    } else if seq_contains(name, ".pdf"@) {
        DocType::PDF
    } else {
        DocType::Other
    }
}

impl DocType {
    /// A short human-readable label.
    pub fn label(&self) -> (r: String)
        ensures
            r@ == match *self {
                DocType::PDF => "pdf"@,
                DocType::WordDoc => "word doc"@,
                DocType::Other => "other"@,
            },
    {
        match self {
            DocType::PDF => String::from_str("pdf"),
            DocType::WordDoc => String::from_str("word doc"),
            DocType::Other => String::from_str("other"),
        }
    }
}

/// Classifies a file name by the extension text it contains.
pub fn doc_type_from_string(name: &str) -> (r: DocType)
    ensures
        r == spec_doc_type(name@),
{
    if str_contains(name, ".docx") {
        DocType::WordDoc
    } else if str_contains(name, ".pdf") {
        DocType::PDF
    } else {
        DocType::Other
    }
}

pub open spec fn is_ascii_digit(c: char) -> bool {
    '0' <= c && c <= '9'
}

/// A revision marker starts at `i`: the letters `Rev` and then a digit.
pub open spec fn rev_at(s: Seq<char>, i: int) -> bool {
    &&& 0 <= i
    &&& i + 4 <= s.len()
    &&& s[i] == 'R'
    &&& s[i + 1] == 'e'
    &&& s[i + 2] == 'v'
    &&& is_ascii_digit(s[i + 3])
}

pub open spec fn has_rev_marker(s: Seq<char>) -> bool {
    exists|i: int| rev_at(s, i)
}

/// The first index at or after `i` where a revision marker starts.
pub open spec fn first_rev_from(s: Seq<char>, i: int) -> Option<int>
    decreases s.len() - i,
{
    if i < 0 || i >= s.len() {
        None
    } else if rev_at(s, i) {
        Some(i)
    } else {
        first_rev_from(s, i + 1)
    }
}

/// The end of the run of digits that starts at `j`.
pub open spec fn digit_run_end(s: Seq<char>, j: int) -> int
    decreases s.len() - j,
{
    if 0 <= j < s.len() && is_ascii_digit(s[j]) {
        digit_run_end(s, j + 1)
    } else {
        j
    }
}

/// The text of the first revision marker with all of its digits.
pub open spec fn revision_marker(s: Seq<char>) -> Option<Seq<char>> {
    match first_rev_from(s, 0) {
        Some(i) => Some(s.subrange(i, digit_run_end(s, i + 3))),
        None => None,
    }
}

/// The number written by a sequence of decimal digits.
pub open spec fn digits_value(d: Seq<char>) -> nat
    decreases d.len(),
{
    if d.len() == 0 {
        0
    } else {
        digits_value(d.drop_last()) * 10 + ((d.last() as u32) - ('0' as u32)) as nat
    }
}

/// The revision number of a file name: the digits of its first marker, when
/// they fit in a `u32`.
pub open spec fn spec_revision(name: Seq<char>) -> Option<u32> {
    match revision_marker(name) {
        Some(m) => {
            let v = digits_value(m.subrange(3, m.len() as int));
            if v <= u32::MAX {
                Some(v as u32)
            } else {
                None
            }
        },
        None => None,
    }
}

/// Relies on `regex::Regex::find` with the pattern `Rev[0-9]+`: the leftmost
/// match, with the digit run taken as long as it goes.
#[verifier::external_body]
fn find_revision_marker(name: &str) -> (r: Option<String>)
    ensures
        match r {
            Some(m) => revision_marker(name@) == Some(m@),
            None => revision_marker(name@) is None,
        },
{
    let pattern = regex::Regex::new("Rev[0-9]+").unwrap();
    match pattern.find(name) {
        Some(m) => Some(m.as_str().to_string()),
        None => None,
    }
}

proof fn lemma_digit_run(s: Seq<char>, j: int)
    requires
        0 <= j <= s.len(),
    ensures
        j <= digit_run_end(s, j) <= s.len(),
        forall|k: int| j <= k < digit_run_end(s, j) ==> is_ascii_digit(#[trigger] s[k]),
        digit_run_end(s, j) < s.len() ==> !is_ascii_digit(s[digit_run_end(s, j)]),
    decreases s.len() - j,
{
    if j < s.len() && is_ascii_digit(s[j]) {
        lemma_digit_run(s, j + 1);
    }
}

proof fn lemma_first_rev_from(s: Seq<char>, i: int)
    requires
        0 <= i <= s.len(),
    ensures
        match first_rev_from(s, i) {
            Some(k) => i <= k && rev_at(s, k) && forall|j: int| i <= j < k ==> !rev_at(s, j),
            None => forall|j: int| i <= j ==> !rev_at(s, j),
        },
    decreases s.len() - i,
{
    if i < s.len() && !rev_at(s, i) {
        lemma_first_rev_from(s, i + 1);
    }
}

/// A longer run of digits never writes a smaller number.
proof fn lemma_digits_value_grows(d: Seq<char>, k: int)
    requires
        0 <= k <= d.len(),
        forall|j: int| 0 <= j < d.len() ==> is_ascii_digit(#[trigger] d[j]),
    ensures
        digits_value(d.subrange(0, k)) <= digits_value(d),
    decreases d.len() - k,
{
    if k < d.len() {
        lemma_digits_value_grows(d, k + 1);
        let p = d.subrange(0, k + 1);
        assert(p.drop_last() =~= d.subrange(0, k));
    } else {
        assert(d.subrange(0, k) =~= d);
    }
}

/// The value of the digits of `m` from index 3 on, if it fits in a `u32`.
fn parse_marker_digits(m: &str) -> (r: Option<u32>)
    requires
        m@.len() >= 3,
        forall|j: int| 3 <= j < m@.len() ==> is_ascii_digit(#[trigger] m@[j]),
    ensures
        ({
            let v = digits_value(m@.subrange(3, m@.len() as int));
            r == if v <= u32::MAX { Some(v as u32) } else { None::<u32> }
        }),
{
    let ghost d = m@.subrange(3, m@.len() as int);
    let len = m.unicode_len();
    let mut value: u64 = 0;
    let mut k: usize = 3;
    while k < len
        invariant
            len == m@.len(),
            3 <= k <= len,
            d == m@.subrange(3, m@.len() as int),
            forall|j: int| 0 <= j < d.len() ==> is_ascii_digit(#[trigger] d[j]),
            value == digits_value(d.subrange(0, k - 3)),
            value <= u32::MAX,
        decreases len - k,
    {
        let c = m.get_char(k);
        let ghost p = d.subrange(0, k - 2);
        assert(p.drop_last() =~= d.subrange(0, k - 3));
        assert(p.last() == c);
        let digit: u64 = ((c as u32) - ('0' as u32)) as u64;
        value = value * 10 + digit;
        if value > 0xFFFF_FFFF {
            proof {
                lemma_digits_value_grows(d, k - 2);
            }
            return None;
        }
        k = k + 1;
    }
    assert(d.subrange(0, k - 3) =~= d);
    Some(value as u32)
}

/// The revision number written in a file name after the letters `Rev`.
///
/// The first marker counts; a name without one, or whose number does not
/// fit in a `u32`, has none.
pub fn find_revision(name: &str) -> (r: Option<u32>)
    ensures
        r == spec_revision(name@),
{
    match find_revision_marker(name) {
        Some(m) => {
            proof {
                let s = name@;
                lemma_first_rev_from(s, 0);
                let i = first_rev_from(s, 0)->0;
                lemma_digit_run(s, i + 3);
                assert(m@.len() >= 3);
                assert forall|j: int| 3 <= j < m@.len() implies is_ascii_digit(#[trigger] m@[j]) by {
                    assert(m@[j] == s[i + j]);
                }
            }
            parse_marker_digits(m.as_str())
        },
        None => None,
    }
}

proof fn lemma_run_end(s: Seq<char>, j: int, e: int)
    requires
        0 <= j <= e <= s.len(),
        forall|k: int| j <= k < e ==> is_ascii_digit(#[trigger] s[k]),
        e == s.len() || !is_ascii_digit(s[e]),
    ensures
        digit_run_end(s, j) == e,
    decreases e - j,
{
    if j < e {
        lemma_run_end(s, j + 1, e);
    }
}

proof fn lemma_first_rev_is(s: Seq<char>, i: int, p: int)
    requires
        0 <= i <= p,
        rev_at(s, p),
        forall|j: int| i <= j < p ==> !rev_at(s, j),
    ensures
        first_rev_from(s, i) == Some(p),
    decreases p - i,
{
    if i < p {
        lemma_first_rev_is(s, i + 1, p);
    }
}

/// A name made of text without a revision marker, the letters `Rev`, a run
/// of digits, and text that does not go on with a digit, has the number
/// that the run writes as its revision, when that number fits in a `u32`.
pub proof fn lemma_revision_of_marked_name(pre: Seq<char>, digits: Seq<char>, post: Seq<char>)
    requires
        !has_rev_marker(pre),
        digits.len() >= 1,
        forall|j: int| 0 <= j < digits.len() ==> is_ascii_digit(#[trigger] digits[j]),
        post.len() == 0 || !is_ascii_digit(post[0]),
        digits_value(digits) <= u32::MAX,
    ensures
        spec_revision(pre + seq!['R', 'e', 'v'] + digits + post) == Some(
            digits_value(digits) as u32,
        ),
{
    let s = pre + seq!['R', 'e', 'v'] + digits + post;
    let p = pre.len() as int;
    let e = p + 3 + digits.len();
    assert forall|i: int| 0 <= i < p implies !rev_at(s, i) by {
        if i + 4 <= p {
            if rev_at(s, i) {
                assert(rev_at(pre, i));
            }
        }
    }
    assert(rev_at(s, p));
    lemma_first_rev_is(s, 0, p);
    assert forall|k: int| p + 3 <= k < e implies is_ascii_digit(#[trigger] s[k]) by {
        assert(s[k] == digits[k - p - 3]);
    }
    if e < s.len() {
        assert(s[e] == post[0]);
    }
    lemma_run_end(s, p + 3, e);
    let m = s.subrange(p, e);
    assert(m.subrange(3, m.len() as int) =~= digits);
}

/// A name without a revision marker has no revision.
pub proof fn lemma_unmarked_name_has_no_revision(name: Seq<char>)
    requires
        !has_rev_marker(name),
    ensures
        spec_revision(name) is None,
{
    lemma_first_rev_from(name, 0);
}

} // verus!
