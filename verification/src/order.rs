//! The order of texts, and lists of texts in that order.

use vstd::prelude::*;
use vstd::seq_lib::to_multiset_insert;

use crate::text::{chars_of, texts};

verus! {

/// Whether `a` comes before `b` or is the same: by the first character in which
/// they differ, or else by length. For UTF-8 this is the order of the bytes.
pub open spec fn comes_first(a: Seq<char>, b: Seq<char>) -> bool
    decreases a.len(),
{
    if a.len() == 0 {
        true
    } else if b.len() == 0 {
        false
    } else if a[0] != b[0] {
        a[0] < b[0]
    } else {
        comes_first(a.drop_first(), b.drop_first())
    }
}

/// Whether no text in the list comes after one that follows it.
pub open spec fn in_order(list: Seq<Seq<char>>) -> bool {
    forall|i: int, j: int|
        0 <= i < j < list.len() ==> comes_first(#[trigger] list[i], #[trigger] list[j])
}

/// Of two texts one comes first.
pub proof fn lemma_one_comes_first(a: Seq<char>, b: Seq<char>)
    ensures
        comes_first(a, b) || comes_first(b, a),
    decreases a.len(),
{
    if a.len() > 0 && b.len() > 0 && a[0] == b[0] {
        lemma_one_comes_first(a.drop_first(), b.drop_first());
    }
}

/// What comes before a text comes before what follows it.
pub proof fn lemma_comes_first_chains(a: Seq<char>, b: Seq<char>, c: Seq<char>)
    requires
        comes_first(a, b),
        comes_first(b, c),
    ensures
        comes_first(a, c),
    decreases a.len(),
{
    if a.len() > 0 && b.len() > 0 && c.len() > 0 && a[0] == b[0] && b[0] == c[0] {
        lemma_comes_first_chains(a.drop_first(), b.drop_first(), c.drop_first());
    }
}

/// Two texts that come before each other are the same.
pub proof fn lemma_order_tells_apart(a: Seq<char>, b: Seq<char>)
    requires
        comes_first(a, b),
        comes_first(b, a),
    ensures
        a == b,
    decreases a.len(),
{
    if a.len() > 0 && b.len() > 0 {
        lemma_order_tells_apart(a.drop_first(), b.drop_first());
        assert(a =~= seq![a[0]] + a.drop_first());
        assert(b =~= seq![b[0]] + b.drop_first());
    } else {
        assert(a =~= b);
    }
}

/// Whether `a` comes before `b` or is the same.
pub fn is_first(a: &str, b: &str) -> (r: bool)
    ensures
        r == comes_first(a@, b@),
{
    let left = chars_of(a);
    let right = chars_of(b);
    let mut i: usize = 0;
    assert(left@.skip(0) =~= a@);
    assert(right@.skip(0) =~= b@);
    while i < left.len() && i < right.len()
        invariant
            left@ == a@,
            right@ == b@,
            i <= left@.len(),
            i <= right@.len(),
            comes_first(a@, b@) == comes_first(left@.skip(i as int), right@.skip(i as int)),
        decreases left@.len() - i,
    {
        if left[i] != right[i] {
            return left[i] < right[i];
        }
        assert(left@.skip(i as int).drop_first() =~= left@.skip(i + 1));
        assert(right@.skip(i as int).drop_first() =~= right@.skip(i + 1));
        i += 1;
    }
    i == left.len()
}

/// Puts `text` in its place in a list that is in order.
pub fn insert_in_order(list: &mut Vec<String>, text: String)
    requires
        in_order(texts(old(list)@)),
    ensures
        in_order(texts(final(list)@)),
        texts(final(list)@).to_multiset() == texts(old(list)@).to_multiset().insert(text@),
{
    let ghost before = texts(list@);
    let mut i: usize = 0;
    while i < list.len() && is_first(list[i].as_str(), text.as_str())
        invariant
            *list == *old(list),
            before == texts(list@),
            i <= list@.len(),
            forall|j: int| 0 <= j < i ==> comes_first(#[trigger] before[j], text@),
        decreases list@.len() - i,
    {
        i += 1;
    }
    list.insert(i, text);
    proof {
        let after = texts(list@);
        assert(after =~= before.insert(i as int, text@));
        to_multiset_insert(before, i as int, text@);
        assert forall|j: int, k: int| 0 <= j < k < after.len() implies comes_first(
            #[trigger] after[j],
            #[trigger] after[k],
        ) by {
            if k == i {
                assert(after[j] == before[j]);
            } else if j == i {
                assert(after[k] == before[k - 1]);
                lemma_one_comes_first(before[i as int], text@);
                assert(!comes_first(before[i as int], text@));
                if k - 1 > i {
                    assert(comes_first(before[i as int], before[k - 1]));
                    lemma_comes_first_chains(text@, before[i as int], before[k - 1]);
                }
            } else {
                let a = if j < i {
                    j
                } else {
                    j - 1
                };
                let b = if k < i {
                    k
                } else {
                    k - 1
                };
                assert(after[j] == before[a]);
                assert(after[k] == before[b]);
                assert(comes_first(before[a], before[b]));
            }
        }
    }
}

/// Two texts are in the order of the first characters in which they differ, and
/// a text comes before one that goes on.
pub proof fn order_goes_by_the_first_difference(
    same: Seq<char>,
    a: char,
    x: Seq<char>,
    b: char,
    y: Seq<char>,
)
    requires
        a != b,
    ensures
        comes_first(same + seq![a] + x, same + seq![b] + y) <==> a < b,
        comes_first(same, same + x),
        x.len() > 0 ==> !comes_first(same + x, same),
    decreases same.len(),
{
    let s = same + seq![a] + x;
    let t = same + seq![b] + y;
    if same.len() == 0 {
        assert(s[0] == a && t[0] == b);
        assert(same + x =~= x);
    } else {
        let rest = same.drop_first();
        order_goes_by_the_first_difference(rest, a, x, b, y);
        assert(s.drop_first() =~= rest + seq![a] + x);
        assert(t.drop_first() =~= rest + seq![b] + y);
        assert((same + x).drop_first() =~= rest + x);
        assert(s[0] == t[0]);
        assert((same + x)[0] == same[0]);
    }
}

} // verus!
