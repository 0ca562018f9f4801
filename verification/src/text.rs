//! The date that leads a creation stamp, and the lexical order in which
//! dates are held against the bounds of a filter.
//!
//! A creation stamp reads `YYYY-MM-DD HH:MM:SS TZ`. Its date portion is what
//! stands before the first space. Dates are compared as text, character by
//! character; for the fixed-width form `YYYY-MM-DD` that order is the order
//! of the calendar.

use vstd::prelude::*;
use vstd::std_specs::iter::IteratorSpec;

verus! {

/// Whether `created` holds the space that ends its date portion.
pub open spec fn has_date_delimiter(created: Seq<char>) -> bool {
    created.contains(' ')
}

/// The characters of `created` before its first space; all of `created`
/// where it holds no space.
pub open spec fn date_portion(created: Seq<char>) -> Seq<char> {
    match created.index_of_first(' ') {
        Some(end) => created.take(end),
        None => created,
    }
}

/// `a` and `b` hold the same character at every position before `k`.
pub open spec fn agree_before(a: Seq<char>, b: Seq<char>, k: int) -> bool {
    &&& 0 <= k <= a.len()
    &&& k <= b.len()
    &&& forall|j: int| 0 <= j < k ==> a[j] == b[j]
}

/// Lexical order on text: at the first position where `a` and `b` part,
/// `a` has ended or holds the smaller character.
pub open spec fn lex_less(a: Seq<char>, b: Seq<char>) -> bool {
    exists|k: int| #[trigger] agree_before(a, b, k) && k < b.len() && (k == a.len() || a[k] < b[k])
}

/// Where a date stands with respect to a bound.
#[derive(Clone, Copy, Debug, PartialEq, Eq, Structural)]
pub enum DateOrder {
    /// The date is lexically less than the bound.
    Before,
    /// Neither is lexically less than the other.
    Same,
    /// The bound is lexically less than the date.
    After,
}

/// Where the date portion of `created` stands with respect to `bound`.
pub open spec fn date_order(created: Seq<char>, bound: Seq<char>) -> DateOrder {
    let date = date_portion(created);
    if lex_less(date, bound) {
        DateOrder::Before
    } else if lex_less(bound, date) {
        DateOrder::After
    } else {
        DateOrder::Same
    }
}

/// The date portion is a prefix of the stamp, holds no space, and ends at
/// a space or at the end of the stamp.
pub proof fn lemma_date_portion(created: Seq<char>)
    ensures
        date_portion(created).len() <= created.len(),
        date_portion(created) == created.take(date_portion(created).len() as int),
        forall|j: int| 0 <= j < date_portion(created).len() ==> created[j] != ' ',
        has_date_delimiter(created) <==> date_portion(created).len() < created.len(),
        has_date_delimiter(created) ==> created[date_portion(created).len() as int] == ' ',
{
    created.index_of_first_ensures(' ');
}

/// A stamp whose first `end` characters hold no space, and which ends or
/// holds a space right there, has exactly those characters as its date
/// portion.
pub proof fn lemma_date_portion_ends(created: Seq<char>, end: int)
    requires
        0 <= end <= created.len(),
        forall|j: int| 0 <= j < end ==> created[j] != ' ',
        end == created.len() || created[end] == ' ',
    ensures
        date_portion(created) == created.take(end),
{
    lemma_date_portion(created);
}

/// No text is lexically less than itself, and of two texts at most one is
/// less than the other.
pub proof fn lemma_lex_less_asymmetric(a: Seq<char>, b: Seq<char>)
    ensures
        !(lex_less(a, b) && lex_less(b, a)),
{
    if lex_less(a, b) && lex_less(b, a) {
        let k = choose|k: int| #[trigger]
            agree_before(a, b, k) && k < b.len() && (k == a.len() || a[k] < b[k]);
        let l = choose|l: int| #[trigger]
            agree_before(b, a, l) && l < a.len() && (l == b.len() || b[l] < a[l]);
    }
}

/// Whether `created` holds the space that ends its date portion.
pub fn is_delimited(created: &str) -> (delimited: bool)
    ensures
        delimited == has_date_delimiter(created@),
{
    let mut stamp = created.chars();
    let ghost mut at: int = 0;
    loop
        invariant
            stamp.obeys_prophetic_iter_laws(),
            0 <= at <= created@.len(),
            stamp.remaining() == created@.skip(at),
            forall|j: int| 0 <= j < at ==> created@[j] != ' ',
        decreases created@.len() - at,
    {
        match stamp.next() {
            Some(c) => {
                if c == ' ' {
                    return true;
                }
                proof {
                    at = at + 1;
                }
            },
            None => {
                return false;
            },
        }
    }
}

/// Holds the date portion of `created` against `bound`, reading both once
/// from the front.
pub fn compare_date(created: &str, bound: &str) -> (order: DateOrder)
    ensures
        order == date_order(created@, bound@),
{
    let mut stamp = created.chars();
    let mut limit = bound.chars();
    let ghost mut at: int = 0;
    loop
        invariant
            stamp.obeys_prophetic_iter_laws(),
            limit.obeys_prophetic_iter_laws(),
            0 <= at <= created@.len(),
            at <= bound@.len(),
            stamp.remaining() == created@.skip(at),
            limit.remaining() == bound@.skip(at),
            forall|j: int| 0 <= j < at ==> created@[j] != ' ',
            forall|j: int| 0 <= j < at ==> created@[j] == bound@[j],
        decreases created@.len() - at,
    {
        let next_in_stamp = stamp.next();
        let next_in_limit = limit.next();
        let ghost date = date_portion(created@);
        let in_date = match next_in_stamp {
            Some(c) => c != ' ',
            None => false,
        };
        if !in_date {
            proof {
                lemma_date_portion_ends(created@, at);
                assert(agree_before(date, bound@, at));
            }
            match next_in_limit {
                Some(_) => {
                    return DateOrder::Before;
                },
                None => {
                    proof {
                        lemma_equal_texts_unordered(date, bound@);
                    }
                    return DateOrder::Same;
                },
            }
        }
        let c = next_in_stamp.unwrap();
        proof {
            lemma_date_portion(created@);
        }
        match next_in_limit {
            None => {
                proof {
                    assert(agree_before(bound@, date, at));
                    lemma_lex_less_asymmetric(date, bound@);
                }
                return DateOrder::After;
            },
            Some(d) => {
                if c < d {
                    proof {
                        assert(agree_before(date, bound@, at));
                    }
                    return DateOrder::Before;
                }
                if d < c {
                    proof {
                        assert(agree_before(bound@, date, at));
                        lemma_lex_less_asymmetric(date, bound@);
                    }
                    return DateOrder::After;
                }
                proof {
                    at = at + 1;
                }
            },
        }
    }
}

/// Two equal texts are not ordered by `lex_less`.
proof fn lemma_equal_texts_unordered(a: Seq<char>, b: Seq<char>)
    requires
        a.len() == b.len(),
        agree_before(a, b, a.len() as int),
    ensures
        !lex_less(a, b),
        !lex_less(b, a),
{
}

} // verus!
