//! Lexicographic ordering of entity names, and the sort that puts the
//! summary's name lists into display order.

use vstd::prelude::*;
use vstd::multiset::Multiset;
use vstd::string::StrSliceExecFns;

verus! {

/// Lexicographic order on names by character code point. For UTF-8
/// encoded strings this agrees with byte-wise string order.
pub open spec fn lex_le(a: Seq<char>, b: Seq<char>) -> bool
    decreases a.len(),
{
    if a.len() == 0 {
        true
    } else if b.len() == 0 {
        false
    } else if (a[0] as u32) == (b[0] as u32) {
        lex_le(a.drop_first(), b.drop_first())
    } else {
        (a[0] as u32) < (b[0] as u32)
    }
}

/// The order is reflexive.
pub proof fn lemma_lex_le_refl(a: Seq<char>)
    ensures
        lex_le(a, a),
    decreases a.len(),
{
    if a.len() > 0 {
        lemma_lex_le_refl(a.drop_first());
    }
}

/// The order is total.
pub proof fn lemma_lex_le_total(a: Seq<char>, b: Seq<char>)
    ensures
        lex_le(a, b) || lex_le(b, a),
    decreases a.len(),
{
    if a.len() > 0 && b.len() > 0 && (a[0] as u32) == (b[0] as u32) {
        lemma_lex_le_total(a.drop_first(), b.drop_first());
    }
}

/// The order is transitive.
pub proof fn lemma_lex_le_trans(a: Seq<char>, b: Seq<char>, c: Seq<char>)
    requires
        lex_le(a, b),
        lex_le(b, c),
    ensures
        lex_le(a, c),
    decreases a.len(),
{
    if a.len() > 0 && b.len() > 0 && c.len() > 0 {
        if (a[0] as u32) == (b[0] as u32) && (b[0] as u32) == (c[0] as u32) {
            lemma_lex_le_trans(a.drop_first(), b.drop_first(), c.drop_first());
        }
    }
}

/// Decides [`lex_le`] on two names.
#[verifier::loop_isolation(false)]
pub fn name_le(a: &String, b: &String) -> (r: bool)
    ensures
        r == lex_le(a@, b@),
{
    let a_str = a.as_str();
    let b_str = b.as_str();
    let a_len = a_str.unicode_len();
    let b_len = b_str.unicode_len();
    let mut i: usize = 0;
    proof {
        assert(a@.skip(0) =~= a@);
        assert(b@.skip(0) =~= b@);
    }
    while i < a_len && i < b_len
        invariant
            0 <= i <= a_len,
            0 <= i <= b_len,
            lex_le(a@, b@) == lex_le(a@.skip(i as int), b@.skip(i as int)),
        decreases a_len - i,
    {
        let ca = a_str.get_char(i);
        let cb = b_str.get_char(i);
        proof {
            assert(a@.skip(i as int)[0] == ca);
            assert(b@.skip(i as int)[0] == cb);
        }
        if ca as u32 != cb as u32 {
            return (ca as u32) < (cb as u32);
        }
        proof {
            assert(a@.skip(i as int).drop_first() =~= a@.skip(i as int + 1));
            assert(b@.skip(i as int).drop_first() =~= b@.skip(i as int + 1));
        }
        i += 1;
    }
    proof {
        if i >= a_len {
            assert(a@.skip(i as int).len() == 0);
        } else {
            assert(b@.skip(i as int).len() == 0);
            assert(a@.skip(i as int).len() > 0);
        }
    }
    i >= a_len
}

/// Whether a name list is in lexicographic order.
pub open spec fn names_sorted(ns: Seq<String>) -> bool {
    forall|i: int, j: int| 0 <= i < j < ns.len() ==> lex_le(ns[i]@, ns[j]@)
}

/// Finds an index of a least name of a non-empty list.
#[verifier::loop_isolation(false)]
fn min_name_index(names: &Vec<String>) -> (m: usize)
    requires
        names@.len() > 0,
    ensures
        0 <= m < names@.len(),
        forall|k: int| 0 <= k < names@.len() ==> lex_le(names@[m as int]@, names@[k]@),
{
    let mut m: usize = 0;
    let mut k: usize = 1;
    proof {
        lemma_lex_le_refl(names@[0]@);
    }
    while k < names.len()
        invariant
            0 <= m < k <= names@.len(),
            forall|p: int| 0 <= p < k ==> lex_le(names@[m as int]@, names@[p]@),
        decreases names@.len() - k,
    {
        if !name_le(&names[m], &names[k]) {
            proof {
                lemma_lex_le_total(names@[m as int]@, names@[k as int]@);
                assert forall|p: int| 0 <= p < k implies lex_le(
                    names@[k as int]@,
                    names@[p]@,
                ) by {
                    lemma_lex_le_trans(names@[k as int]@, names@[m as int]@, names@[p]@);
                };
                lemma_lex_le_refl(names@[k as int]@);
            }
            m = k;
        }
        k += 1;
    }
    m
}

/// Returns the names in lexicographic order: the result is sorted and
/// holds exactly the input names, multiplicity included.
#[verifier::loop_isolation(false)]
pub fn sorted_names(names: &Vec<String>) -> (r: Vec<String>)
    ensures
        names_sorted(r@),
        r@.to_multiset() == names@.to_multiset(),
        r@.len() == names@.len(),
{
    broadcast use vstd::seq_lib::group_to_multiset_ensures;

    let mut remaining = crate::text::clone_names(names);
    let mut r: Vec<String> = Vec::new();
    proof {
        assert(r@.to_multiset().add(remaining@.to_multiset()) =~= names@.to_multiset());
    }
    while remaining.len() > 0
        invariant
            r@.len() + remaining@.len() == names@.len(),
            r@.to_multiset().add(remaining@.to_multiset()) == names@.to_multiset(),
            names_sorted(r@),
            forall|p: int, q: int|
                0 <= p < r@.len() && 0 <= q < remaining@.len() ==> lex_le(
                    r@[p]@,
                    remaining@[q]@,
                ),
        decreases remaining@.len(),
    {
        let ghost old_r = r@;
        let ghost old_remaining = remaining@;
        let m = min_name_index(&remaining);
        let x = remaining.remove(m);
        r.push(x);
        proof {
            assert(old_remaining.remove(m as int).to_multiset() =~= old_remaining.to_multiset()
                .remove(old_remaining[m as int]));
            assert(old_remaining.to_multiset().count(old_remaining[m as int]) > 0);
            assert(r@.to_multiset().add(remaining@.to_multiset()) =~= names@.to_multiset());
            assert forall|p: int, q: int|
                0 <= p < r@.len() && 0 <= q < remaining@.len() implies lex_le(
                r@[p]@,
                remaining@[q]@,
            ) by {
                if q < m {
                    assert(remaining@[q] == old_remaining[q]);
                } else {
                    assert(remaining@[q] == old_remaining[q + 1]);
                }
            };
            assert(names_sorted(r@));
        }
    }
    proof {
        assert(remaining@.to_multiset() =~= Multiset::<String>::empty());
        assert(r@.to_multiset() =~= names@.to_multiset());
    }
    r
}

} // verus!
