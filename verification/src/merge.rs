//! The cross-source merge: a capacity-bounded two-cursor walk over two books
//! of one side, each sorted best-first.

use vstd::prelude::*;

use crate::book::{at_least_as_good, copy_level, levels_view, sorted_side, Level, LevelV, Side};
use vstd::math::min;

verus! {

/// Which input supplies the next merged entry while both cursors still have
/// entries. On an exact price tie a bid level comes from the second source
/// first and an ask level from the first source first; the asymmetry is part
/// of the merge's contract and tested explicitly.
pub open spec fn takes_first_source(l1: LevelV, l2: LevelV, side: Side) -> bool {
    match side {
        Side::Bid => l1.price > l2.price,
        Side::Ask => l1.price <= l2.price,
    }
}

/// The merged book of one side: a two-cursor walk that repeatedly takes the
/// better of the two current entries, truncated at `cap` entries. Entries are
/// taken verbatim; once one input is exhausted the other supplies the rest.
pub open spec fn spec_merge(a: Seq<LevelV>, b: Seq<LevelV>, cap: nat, side: Side) -> Seq<LevelV>
    decreases cap,
{
    if cap == 0 || (a.len() == 0 && b.len() == 0) {
        Seq::empty()
    } else if b.len() == 0 || (a.len() > 0 && takes_first_source(a[0], b[0], side)) {
        seq![a[0]] + spec_merge(a.drop_first(), b, (cap - 1) as nat, side)
    } else {
        seq![b[0]] + spec_merge(a, b.drop_first(), (cap - 1) as nat, side)
    }
}

proof fn lemma_sorted_drop_first(s: Seq<LevelV>, side: Side)
    requires
        s.len() > 0,
        sorted_side(s, side),
    ensures
        sorted_side(s.drop_first(), side),
{
    assert forall|i: int, j: int| 0 <= i <= j < s.drop_first().len()
        implies #[trigger] at_least_as_good(s.drop_first()[i], s.drop_first()[j], side) by {
        assert(s.drop_first()[i] == s[i + 1]);
        assert(s.drop_first()[j] == s[j + 1]);
        assert(at_least_as_good(s[i + 1], s[j + 1], side));
    }
}

proof fn lemma_drop_first_contains(s: Seq<LevelV>, x: LevelV)
    requires
        s.len() > 0,
        s.drop_first().contains(x),
    ensures
        s.contains(x),
{
    let k = choose|k: int| 0 <= k < s.drop_first().len() && s.drop_first()[k] == x;
    assert(s[k + 1] == x);
}

/// For sorted inputs the merged book is itself sorted in the side's order, has
/// exactly `min(cap, a.len() + b.len())` entries, and every entry it holds is
/// an entry of one of the two inputs, verbatim.
pub proof fn lemma_merge_properties(a: Seq<LevelV>, b: Seq<LevelV>, cap: nat, side: Side)
    requires
        sorted_side(a, side),
        sorted_side(b, side),
    ensures
        spec_merge(a, b, cap, side).len() == min(cap as int, a.len() + b.len() as int),
        sorted_side(spec_merge(a, b, cap, side), side),
        forall|i: int|
            0 <= i < spec_merge(a, b, cap, side).len()
                ==> a.contains(#[trigger] spec_merge(a, b, cap, side)[i])
                    || b.contains(spec_merge(a, b, cap, side)[i]),
    decreases cap,
{
    let m = spec_merge(a, b, cap, side);
    if cap == 0 || (a.len() == 0 && b.len() == 0) {
        // the merge is empty
    } else if b.len() == 0 || (a.len() > 0 && takes_first_source(a[0], b[0], side)) {
        let a2 = a.drop_first();
        lemma_sorted_drop_first(a, side);
        lemma_merge_properties(a2, b, (cap - 1) as nat, side);
        let rest = spec_merge(a2, b, (cap - 1) as nat, side);
        assert(m == seq![a[0]] + rest);
        assert forall|j: int| 0 <= j < rest.len()
            implies at_least_as_good(a[0], rest[j], side) by {
            if a2.contains(rest[j]) {
                let k = choose|k: int| 0 <= k < a2.len() && a2[k] == rest[j];
                assert(a2[k] == a[k + 1]);
                assert(at_least_as_good(a[0], a[k + 1], side));
            } else {
                assert(b.contains(rest[j]));
                let k = choose|k: int| 0 <= k < b.len() && b[k] == rest[j];
                assert(at_least_as_good(b[0], b[k], side));
            }
        }
        assert forall|i: int, j: int| 0 <= i <= j < m.len()
            implies #[trigger] at_least_as_good(m[i], m[j], side) by {
            if i == 0 {
                if j == 0 {
                    assert(at_least_as_good(m[0], m[0], side));
                } else {
                    assert(m[j] == rest[j - 1]);
                    assert(at_least_as_good(a[0], rest[j - 1], side));
                }
            } else {
                assert(m[i] == rest[i - 1]);
                assert(m[j] == rest[j - 1]);
                assert(at_least_as_good(rest[i - 1], rest[j - 1], side));
            }
        }
        assert forall|i: int| 0 <= i < m.len()
            implies a.contains(#[trigger] m[i]) || b.contains(m[i]) by {
            if i == 0 {
                assert(m[0] == a[0]);
                assert(a.contains(a[0]));
            } else {
                assert(m[i] == rest[i - 1]);
                if a2.contains(rest[i - 1]) {
                    lemma_drop_first_contains(a, rest[i - 1]);
                }
            }
        }
    } else {
        let b2 = b.drop_first();
        lemma_sorted_drop_first(b, side);
        lemma_merge_properties(a, b2, (cap - 1) as nat, side);
        let rest = spec_merge(a, b2, (cap - 1) as nat, side);
        assert(m == seq![b[0]] + rest);
        assert forall|j: int| 0 <= j < rest.len()
            implies at_least_as_good(b[0], rest[j], side) by {
            if b2.contains(rest[j]) {
                let k = choose|k: int| 0 <= k < b2.len() && b2[k] == rest[j];
                assert(b2[k] == b[k + 1]);
                assert(at_least_as_good(b[0], b[k + 1], side));
            } else {
                assert(a.contains(rest[j]));
                let k = choose|k: int| 0 <= k < a.len() && a[k] == rest[j];
                assert(at_least_as_good(a[0], a[k], side));
            }
        }
        assert forall|i: int, j: int| 0 <= i <= j < m.len()
            implies #[trigger] at_least_as_good(m[i], m[j], side) by {
            if i == 0 {
                if j == 0 {
                    assert(at_least_as_good(m[0], m[0], side));
                } else {
                    assert(m[j] == rest[j - 1]);
                    assert(at_least_as_good(b[0], rest[j - 1], side));
                }
            } else {
                assert(m[i] == rest[i - 1]);
                assert(m[j] == rest[j - 1]);
                assert(at_least_as_good(rest[i - 1], rest[j - 1], side));
            }
        }
        assert forall|i: int| 0 <= i < m.len()
            implies a.contains(#[trigger] m[i]) || b.contains(m[i]) by {
            if i == 0 {
                assert(m[0] == b[0]);
                assert(b.contains(b[0]));
            } else {
                assert(m[i] == rest[i - 1]);
                if b2.contains(rest[i - 1]) {
                    lemma_drop_first_contains(b, rest[i - 1]);
                }
            }
        }
    }
}

/// The tie-break asymmetry: when both books lead with the same price, the
/// merged bid book starts with the second source's entry and the merged ask
/// book with the first source's entry.
pub proof fn lemma_merge_tie_break(a: Seq<LevelV>, b: Seq<LevelV>, cap: nat, side: Side)
    requires
        cap > 0,
        a.len() > 0,
        b.len() > 0,
        a[0].price == b[0].price,
    ensures
        side is Bid ==> spec_merge(a, b, cap, side)[0] == b[0],
        side is Ask ==> spec_merge(a, b, cap, side)[0] == a[0],
{
    match side {
        Side::Bid => {
            assert(!takes_first_source(a[0], b[0], side));
        }
        Side::Ask => {
            assert(takes_first_source(a[0], b[0], side));
        }
    }
}

/// Merges two books of one side, each sorted best-first, into one best-first
/// sequence of at most `cap` entries. Every emitted level is copied verbatim
/// from its input; entries past the cap are discarded.
pub fn merge(levels_01: &Vec<Level>, levels_02: &Vec<Level>, cap: usize, side: Side) -> (merged:
    Vec<Level>)
    ensures
        levels_view(merged@) == spec_merge(
            levels_view(levels_01@),
            levels_view(levels_02@),
            cap as nat,
            side,
        ),
{
    let ghost a = levels_view(levels_01@);
    let ghost b = levels_view(levels_02@);
    let mut merged: Vec<Level> = Vec::with_capacity(cap);
    let mut index_01: usize = 0;
    let mut index_02: usize = 0;
    proof {
        assert(a.skip(0) =~= a);
        assert(b.skip(0) =~= b);
        assert(levels_view(merged@) =~= Seq::<LevelV>::empty());
        assert(Seq::<LevelV>::empty() + spec_merge(a, b, cap as nat, side) =~= spec_merge(
            a,
            b,
            cap as nat,
            side,
        ));
    }
    while merged.len() < cap && (index_01 < levels_01.len() || index_02 < levels_02.len())
        invariant
            a == levels_view(levels_01@),
            b == levels_view(levels_02@),
            index_01 <= levels_01@.len(),
            index_02 <= levels_02@.len(),
            merged@.len() <= cap,
            spec_merge(a, b, cap as nat, side) == levels_view(merged@) + spec_merge(
                a.skip(index_01 as int),
                b.skip(index_02 as int),
                (cap - merged@.len()) as nat,
                side,
            ),
        decreases cap - merged@.len(),
    {
        let ghost arest = a.skip(index_01 as int);
        let ghost brest = b.skip(index_02 as int);
        let ghost mv0 = levels_view(merged@);
        let ghost capleft = (cap - merged@.len()) as nat;
        let take_first: bool = if index_01 >= levels_01.len() {
            false
        } else if index_02 >= levels_02.len() {
            true
        } else {
            match side {
                Side::Bid => levels_01[index_01].price > levels_02[index_02].price,
                Side::Ask => levels_01[index_01].price <= levels_02[index_02].price,
            }
        };
        if take_first {
            merged.push(copy_level(&levels_01[index_01]));
            index_01 += 1;
            proof {
                assert(arest[0] == a[index_01 - 1]);
                assert(spec_merge(arest, brest, capleft, side) == seq![arest[0]] + spec_merge(
                    arest.drop_first(),
                    brest,
                    (capleft - 1) as nat,
                    side,
                ));
                assert(arest.drop_first() =~= a.skip(index_01 as int));
                assert(levels_view(merged@) =~= mv0.push(arest[0]));
                assert(mv0 + (seq![arest[0]] + spec_merge(
                    a.skip(index_01 as int),
                    brest,
                    (capleft - 1) as nat,
                    side,
                )) =~= mv0.push(arest[0]) + spec_merge(
                    a.skip(index_01 as int),
                    brest,
                    (capleft - 1) as nat,
                    side,
                ));
            }
        } else {
            merged.push(copy_level(&levels_02[index_02]));
            index_02 += 1;
            proof {
                assert(brest[0] == b[index_02 - 1]);
                assert(spec_merge(arest, brest, capleft, side) == seq![brest[0]] + spec_merge(
                    arest,
                    brest.drop_first(),
                    (capleft - 1) as nat,
                    side,
                ));
                assert(brest.drop_first() =~= b.skip(index_02 as int));
                assert(levels_view(merged@) =~= mv0.push(brest[0]));
                assert(mv0 + (seq![brest[0]] + spec_merge(
                    arest,
                    b.skip(index_02 as int),
                    (capleft - 1) as nat,
                    side,
                )) =~= mv0.push(brest[0]) + spec_merge(
                    arest,
                    b.skip(index_02 as int),
                    (capleft - 1) as nat,
                    side,
                ));
            }
        }
    }
    proof {
        assert(spec_merge(
            a.skip(index_01 as int),
            b.skip(index_02 as int),
            (cap - merged@.len()) as nat,
            side,
        ) == Seq::<LevelV>::empty());
        assert(levels_view(merged@) + Seq::<LevelV>::empty() =~= levels_view(merged@));
    }
    merged
}

} // verus!
