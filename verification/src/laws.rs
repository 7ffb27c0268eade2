//! What the matching pass guarantees, proved of the engine's model: the
//! partition of both ledgers' transactions, the precedence of reference
//! matches over equivalence matches, the promise that equivalence matches
//! never acquire a reference, and the idempotence of a completed run.

use vstd::prelude::*;
use crate::transaction::{
    import_view, key_of, spec_imported_as, spec_same_amount_and_date, Transaction,
};
use crate::sync::{
    claim_of, claimed_after, equiv_candidate, fate_of, find_equivalence_match,
    find_reference_match, lemma_claim_props, lemma_claimed_after_len,
    lemma_find_equivalence_match_props, lemma_find_reference_match_props, new_after, new_indices,
    only_ynab_of, ref_candidate, source_fate, unclaimed_prefix, updated_after, SourceFate,
    UpdatedTransaction,
};

verus! {

/// The indices of the bank transactions among the first `k` whose pairing
/// is owed an update, in the bank's order.
pub open spec fn updated_indices(src: Seq<Transaction>, dest: Seq<Transaction>, k: int) -> Seq<int>
    decreases k,
{
    if k <= 0 {
        Seq::empty()
    } else if source_fate(src, dest, k - 1) matches SourceFate::ReferenceMatched {
        j: _,
        changed: true,
    } {
        updated_indices(src, dest, k - 1).push(k - 1)
    } else {
        updated_indices(src, dest, k - 1)
    }
}

/// The budgeting transaction the bank transaction at `i` is paired with by
/// reference, when its fate is a reference match.
pub open spec fn reference_pair(src: Seq<Transaction>, dest: Seq<Transaction>, i: int) -> UpdatedTransaction {
    match source_fate(src, dest, i) {
        SourceFate::ReferenceMatched { j, changed } => UpdatedTransaction {
            n26: src[i],
            ynab: dest[j],
        },
        _ => arbitrary(),
    }
}

/// Partition of the bank's side, after the first `k` turns: the list of
/// transactions to create holds exactly those whose fate is creation, the
/// list of pairs to update exactly those whose reference match changed,
/// each exactly once and in the bank's order; every other bank transaction
/// was matched and left alone.
pub proof fn lemma_source_partition(src: Seq<Transaction>, dest: Seq<Transaction>, k: int)
    requires
        0 <= k <= src.len(),
    ensures
        forall|x: int, y: int|
            0 <= x < y < new_indices(src, dest, k).len() ==> #[trigger] new_indices(src, dest, k)[x]
                < #[trigger] new_indices(src, dest, k)[y],
        forall|x: int|
            0 <= x < new_indices(src, dest, k).len() ==> 0 <= #[trigger] new_indices(src, dest, k)[x]
                < k,
        forall|i: int|
            0 <= i < k ==> (#[trigger] new_indices(src, dest, k).contains(i) <==> source_fate(
                src,
                dest,
                i,
            ) is Created),
        new_after(src, dest, k) == new_indices(src, dest, k).map_values(|i: int| src[i]),
        forall|x: int, y: int|
            0 <= x < y < updated_indices(src, dest, k).len() ==> #[trigger] updated_indices(
                src,
                dest,
                k,
            )[x] < #[trigger] updated_indices(src, dest, k)[y],
        forall|x: int|
            0 <= x < updated_indices(src, dest, k).len() ==> 0 <= #[trigger] updated_indices(
                src,
                dest,
                k,
            )[x] < k,
        forall|i: int|
            0 <= i < k ==> (#[trigger] updated_indices(src, dest, k).contains(i) <==> source_fate(
                src,
                dest,
                i,
            ) matches SourceFate::ReferenceMatched { j: _, changed: true }),
        updated_after(src, dest, k) == updated_indices(src, dest, k).map_values(
            |i: int| reference_pair(src, dest, i),
        ),
    decreases k,
{
    if k <= 0 {
        assert(new_after(src, dest, k) =~= new_indices(src, dest, k).map_values(|i: int| src[i]));
        assert(updated_after(src, dest, k) =~= updated_indices(src, dest, k).map_values(
            |i: int| reference_pair(src, dest, i),
        ));
    } else {
        lemma_source_partition(src, dest, k - 1);
        let prev_new = new_indices(src, dest, k - 1);
        let cur_new = new_indices(src, dest, k);
        let prev_upd = updated_indices(src, dest, k - 1);
        let cur_upd = updated_indices(src, dest, k);

        // membership in a pushed list is membership in the list or the new index
        assert forall|i: int| 0 <= i < k implies (#[trigger] cur_new.contains(i) <==> source_fate(
            src,
            dest,
            i,
        ) is Created) by {
            if source_fate(src, dest, k - 1) is Created {
                assert(cur_new == prev_new.push(k - 1));
                assert(cur_new[cur_new.len() - 1] == k - 1);
                if i < k - 1 {
                    if prev_new.contains(i) {
                        let w = choose|w: int| 0 <= w < prev_new.len() && prev_new[w] == i;
                        assert(cur_new[w] == i);
                    }
                    if cur_new.contains(i) {
                        let w = choose|w: int| 0 <= w < cur_new.len() && cur_new[w] == i;
                        if w < prev_new.len() {
                            assert(prev_new[w] == i);
                        }
                    }
                }
            } else {
                assert(cur_new == prev_new);
                if i == k - 1 && cur_new.contains(i) {
                    let w = choose|w: int| 0 <= w < cur_new.len() && cur_new[w] == i;
                    assert(prev_new[w] < k - 1);
                }
            }
        }

        assert forall|i: int| 0 <= i < k implies (#[trigger] cur_upd.contains(i) <==> source_fate(
            src,
            dest,
            i,
        ) matches SourceFate::ReferenceMatched { j: _, changed: true }) by {
            if source_fate(src, dest, k - 1) matches SourceFate::ReferenceMatched {
                j: _,
                changed: true,
            } {
                assert(cur_upd == prev_upd.push(k - 1));
                assert(cur_upd[cur_upd.len() - 1] == k - 1);
                if i < k - 1 {
                    if prev_upd.contains(i) {
                        let w = choose|w: int| 0 <= w < prev_upd.len() && prev_upd[w] == i;
                        assert(cur_upd[w] == i);
                    }
                    if cur_upd.contains(i) {
                        let w = choose|w: int| 0 <= w < cur_upd.len() && cur_upd[w] == i;
                        if w < prev_upd.len() {
                            assert(prev_upd[w] == i);
                        }
                    }
                }
            } else {
                assert(cur_upd == prev_upd);
                if i == k - 1 && cur_upd.contains(i) {
                    let w = choose|w: int| 0 <= w < cur_upd.len() && cur_upd[w] == i;
                    assert(prev_upd[w] < k - 1);
                }
            }
        }

        assert(new_after(src, dest, k) =~= cur_new.map_values(|i: int| src[i]));
        assert(updated_after(src, dest, k) =~= cur_upd.map_values(
            |i: int| reference_pair(src, dest, i),
        ));
    }
}

/// The bank transaction at `i` claims the budgeting transaction at `j` at
/// its turn of the pass.
pub open spec fn claims(src: Seq<Transaction>, dest: Seq<Transaction>, i: int, j: int) -> bool {
    claim_of(source_fate(src, dest, i)) == Some(j)
}

/// A budgeting transaction is claimed after `k` turns exactly when one of
/// those turns claimed it.
pub proof fn lemma_claimed_iff_claimed_by(
    src: Seq<Transaction>,
    dest: Seq<Transaction>,
    k: int,
    j: int,
)
    requires
        0 <= k <= src.len(),
        0 <= j < dest.len(),
    ensures
        claimed_after(src, dest, k)[j] <==> exists|i: int| 0 <= i < k && claims(src, dest, i, j),
    decreases k,
{
    lemma_claimed_after_len(src, dest, k);
    if k > 0 {
        lemma_claimed_iff_claimed_by(src, dest, k - 1, j);
        lemma_claimed_after_len(src, dest, k - 1);
        lemma_claim_props(src[k - 1], dest, claimed_after(src, dest, k - 1));
        if claimed_after(src, dest, k)[j] {
            if claims(src, dest, k - 1, j) {
                assert(0 <= k - 1 < k && claims(src, dest, k - 1, j));
            } else {
                assert(claimed_after(src, dest, k - 1)[j]);
                let i = choose|i: int| 0 <= i < k - 1 && claims(src, dest, i, j);
                assert(0 <= i < k && claims(src, dest, i, j));
            }
        }
        if exists|i: int| 0 <= i < k && claims(src, dest, i, j) {
            let i = choose|i: int| 0 <= i < k && claims(src, dest, i, j);
            if i < k - 1 {
                assert(claimed_after(src, dest, k - 1)[j]);
            }
            assert(claimed_after(src, dest, k)[j]);
        }
    }
}

/// No budgeting transaction is claimed twice: two turns that claim the same
/// one are the same turn.
pub proof fn lemma_claims_injective(
    src: Seq<Transaction>,
    dest: Seq<Transaction>,
    i1: int,
    i2: int,
    j: int,
)
    requires
        0 <= i1 < src.len(),
        0 <= i2 < src.len(),
        claims(src, dest, i1, j),
        claims(src, dest, i2, j),
    ensures
        i1 == i2,
{
    if i1 < i2 {
        lemma_claim_stays(src, dest, i1, i2, j);
        lemma_claim_props(src[i2], dest, claimed_after(src, dest, i2));
    }
    if i2 < i1 {
        lemma_claim_stays(src, dest, i2, i1, j);
        lemma_claim_props(src[i1], dest, claimed_after(src, dest, i1));
    }
}

/// Once a turn claims a budgeting transaction, every later turn sees it
/// claimed.
pub proof fn lemma_claim_stays(
    src: Seq<Transaction>,
    dest: Seq<Transaction>,
    i1: int,
    i2: int,
    j: int,
)
    requires
        0 <= i1 < i2 <= src.len(),
        claims(src, dest, i1, j),
    ensures
        0 <= j < dest.len(),
        claimed_after(src, dest, i2)[j],
    decreases i2,
{
    lemma_claim_props(src[i1], dest, claimed_after(src, dest, i1));
    lemma_claimed_after_len(src, dest, i1);
    if i2 == i1 + 1 {
    } else {
        lemma_claim_stays(src, dest, i1, i2 - 1, j);
        lemma_claimed_after_len(src, dest, i2 - 1);
        lemma_claim_props(src[i2 - 1], dest, claimed_after(src, dest, i2 - 1));
    }
}

/// Partition of the budgeting side: after the whole pass, each budgeting
/// transaction is either claimed by exactly one bank transaction's turn —
/// by reference or by equivalence — or reported unmatched; the unmatched
/// report holds exactly the unclaimed ones, in the budgeting ledger's
/// order, each once.
pub proof fn lemma_destination_partition(src: Seq<Transaction>, dest: Seq<Transaction>)
    ensures
        forall|j: int|
            0 <= j < dest.len() ==> (#[trigger] claimed_after(src, dest, src.len() as int)[j]
                <==> exists|i: int| 0 <= i < src.len() && claims(src, dest, i, j)),
        forall|i1: int, i2: int, j: int|
            0 <= i1 < src.len() && 0 <= i2 < src.len() && #[trigger] claims(src, dest, i1, j)
                && #[trigger] claims(src, dest, i2, j) ==> i1 == i2,
        only_ynab_of(src, dest) == unclaimed_indices(
            claimed_after(src, dest, src.len() as int),
            dest.len() as int,
        ).map_values(|j: int| dest[j]),
        forall|x: int, y: int|
            0 <= x < y < unclaimed_indices(
                claimed_after(src, dest, src.len() as int),
                dest.len() as int,
            ).len() ==> #[trigger] unclaimed_indices(
                claimed_after(src, dest, src.len() as int),
                dest.len() as int,
            )[x] < #[trigger] unclaimed_indices(
                claimed_after(src, dest, src.len() as int),
                dest.len() as int,
            )[y],
        forall|j: int|
            0 <= j < dest.len() ==> (#[trigger] unclaimed_indices(
                claimed_after(src, dest, src.len() as int),
                dest.len() as int,
            ).contains(j) <==> !claimed_after(src, dest, src.len() as int)[j]),
{
    assert forall|j: int| 0 <= j < dest.len() implies (#[trigger] claimed_after(
        src,
        dest,
        src.len() as int,
    )[j] <==> exists|i: int| 0 <= i < src.len() && claims(src, dest, i, j)) by {
        lemma_claimed_iff_claimed_by(src, dest, src.len() as int, j);
    }
    assert forall|i1: int, i2: int, j: int|
        0 <= i1 < src.len() && 0 <= i2 < src.len() && #[trigger] claims(src, dest, i1, j)
            && #[trigger] claims(src, dest, i2, j) implies i1 == i2 by {
        lemma_claims_injective(src, dest, i1, i2, j);
    }
    lemma_unclaimed_indices(
        dest,
        claimed_after(src, dest, src.len() as int),
        dest.len() as int,
    );
}

/// The indices among the first `j` that `claimed` leaves unclaimed, in
/// order.
pub open spec fn unclaimed_indices(claimed: Seq<bool>, j: int) -> Seq<int>
    decreases j,
{
    if j <= 0 {
        Seq::empty()
    } else if claimed[j - 1] {
        unclaimed_indices(claimed, j - 1)
    } else {
        unclaimed_indices(claimed, j - 1).push(j - 1)
    }
}

/// The unmatched report enumerates exactly the unclaimed indices, in order.
proof fn lemma_unclaimed_indices(dest: Seq<Transaction>, claimed: Seq<bool>, j: int)
    requires
        0 <= j <= dest.len(),
    ensures
        unclaimed_prefix(dest, claimed, j) == unclaimed_indices(claimed, j).map_values(
            |x: int| dest[x],
        ),
        forall|x: int, y: int|
            0 <= x < y < unclaimed_indices(claimed, j).len() ==> #[trigger] unclaimed_indices(
                claimed,
                j,
            )[x] < #[trigger] unclaimed_indices(claimed, j)[y],
        forall|x: int|
            0 <= x < unclaimed_indices(claimed, j).len() ==> 0 <= #[trigger] unclaimed_indices(
                claimed,
                j,
            )[x] < j,
        forall|x: int|
            0 <= x < j ==> (#[trigger] unclaimed_indices(claimed, j).contains(x) <==> !claimed[x]),
    decreases j,
{
    if j <= 0 {
        assert(unclaimed_prefix(dest, claimed, j) =~= unclaimed_indices(claimed, j).map_values(
            |x: int| dest[x],
        ));
    } else {
        lemma_unclaimed_indices(dest, claimed, j - 1);
        let prev = unclaimed_indices(claimed, j - 1);
        let cur = unclaimed_indices(claimed, j);
        assert forall|x: int| 0 <= x < j implies (#[trigger] cur.contains(x) <==> !claimed[x]) by {
            if !claimed[j - 1] {
                assert(cur == prev.push(j - 1));
                assert(cur[cur.len() - 1] == j - 1);
                if x < j - 1 {
                    if prev.contains(x) {
                        let w = choose|w: int| 0 <= w < prev.len() && prev[w] == x;
                        assert(cur[w] == x);
                    }
                    if cur.contains(x) {
                        let w = choose|w: int| 0 <= w < cur.len() && cur[w] == x;
                        if w < prev.len() {
                            assert(prev[w] == x);
                        }
                    }
                }
            } else {
                assert(cur == prev);
                if x == j - 1 && cur.contains(x) {
                    let w = choose|w: int| 0 <= w < cur.len() && cur[w] == x;
                    assert(prev[w] < j - 1);
                }
            }
        }
        assert(unclaimed_prefix(dest, claimed, j) =~= cur.map_values(|x: int| dest[x]));
    }
}

/// Reference precedence: at a turn where some unclaimed budgeting
/// transaction names the bank transaction `s`, the pass pairs `s` by
/// reference — with the first such one — even when an unclaimed equivalence
/// candidate exists; it never falls back to equivalence or creation.
pub proof fn lemma_reference_precedence(
    s: Transaction,
    dest: Seq<Transaction>,
    claimed: Seq<bool>,
    j: int,
)
    requires
        0 <= j < dest.len(),
        ref_candidate(s, dest, claimed, j),
    ensures
        fate_of(s, dest, claimed) is ReferenceMatched,
        match fate_of(s, dest, claimed) {
            SourceFate::ReferenceMatched { j: jm, changed } => {
                &&& ref_candidate(s, dest, claimed, jm)
                &&& jm <= j
                &&& changed == !spec_same_amount_and_date(s, dest[jm])
            },
            _ => false,
        },
{
    lemma_find_reference_match_props(s, dest, claimed, 0);
}

/// No retroactive linking: every pair the pass marks for update already
/// carried the bank transaction's id as its reference, so an update only
/// re-asserts a link that exists; an equivalence match is left alone and
/// never given one.
pub proof fn lemma_no_retroactive_linking(src: Seq<Transaction>, dest: Seq<Transaction>, k: int)
    requires
        0 <= k <= src.len(),
    ensures
        forall|x: int|
            0 <= x < updated_after(src, dest, k).len() ==> spec_imported_as(
                (#[trigger] updated_after(src, dest, k)[x]).n26,
                updated_after(src, dest, k)[x].ynab,
            ),
    decreases k,
{
    if k > 0 {
        lemma_no_retroactive_linking(src, dest, k - 1);
        lemma_find_reference_match_props(src[k - 1], dest, claimed_after(src, dest, k - 1), 0);
    }
}

/// The bank's transactions carry pairwise distinct ids.
pub open spec fn distinct_ids(src: Seq<Transaction>) -> bool {
    forall|i1: int, i2: int|
        0 <= i1 < i2 < src.len() ==> (#[trigger] src[i1]).id@ != (#[trigger] src[i2]).id@
}

/// Every budgeting transaction that carries a reference naming a bank
/// transaction still agrees with it on amount and date: no bank-side
/// change is pending among the referenced pairs.
pub open spec fn references_consistent(src: Seq<Transaction>, dest: Seq<Transaction>) -> bool {
    forall|i: int, j: int|
        0 <= i < src.len() && 0 <= j < dest.len() && spec_imported_as(
            #[trigger] src[i],
            #[trigger] dest[j],
        ) ==> spec_same_amount_and_date(src[i], dest[j])
}

/// With consistent references the pass finds nothing to update: every
/// reference match already agrees on amount and date.
pub proof fn lemma_no_updates_when_consistent(
    src: Seq<Transaction>,
    dest: Seq<Transaction>,
    k: int,
)
    requires
        references_consistent(src, dest),
        0 <= k <= src.len(),
    ensures
        updated_after(src, dest, k) == Seq::<UpdatedTransaction>::empty(),
    decreases k,
{
    if k > 0 {
        lemma_no_updates_when_consistent(src, dest, k - 1);
        lemma_find_reference_match_props(src[k - 1], dest, claimed_after(src, dest, k - 1), 0);
    }
}

/// `dest2` is the budgeting ledger once the pass's creations are applied:
/// the old transactions unchanged in what matching reads — reference,
/// amount, date — and the created ones appended in order, each carrying its
/// bank transaction's id as the reference and its amount and date.
pub open spec fn with_creations_applied(
    src: Seq<Transaction>,
    dest: Seq<Transaction>,
    dest2: Seq<Transaction>,
) -> bool {
    &&& dest2.len() == dest.len() + new_indices(src, dest, src.len() as int).len()
    &&& (forall|j: int|
        0 <= j < dest.len() ==> import_view(#[trigger] dest2[j]) == import_view(dest[j]) && key_of(
            dest2[j],
        ) == key_of(dest[j]))
    &&& (forall|p: int|
        dest.len() <= p < dest2.len() ==> import_view(#[trigger] dest2[p]) == Some(
            src[new_indices(src, dest, src.len() as int)[p - dest.len()]].id@,
        ) && key_of(dest2[p]) == key_of(
            src[new_indices(src, dest, src.len() as int)[p - dest.len()]],
        ))
}

/// Two reference searches agree when their candidates agree on the first
/// ledger's range and the longer ledger offers none beyond it.
proof fn lemma_find_ref_agree(
    s: Transaction,
    dest: Seq<Transaction>,
    claimed: Seq<bool>,
    dest2: Seq<Transaction>,
    claimed2: Seq<bool>,
)
    requires
        dest.len() <= dest2.len(),
        forall|x: int|
            0 <= x < dest.len() ==> #[trigger] ref_candidate(s, dest2, claimed2, x)
                == ref_candidate(s, dest, claimed, x),
        forall|x: int|
            dest.len() <= x < dest2.len() ==> !#[trigger] ref_candidate(s, dest2, claimed2, x),
    ensures
        find_reference_match(s, dest2, claimed2, 0) == find_reference_match(s, dest, claimed, 0),
{
    lemma_find_reference_match_props(s, dest, claimed, 0);
    lemma_find_reference_match_props(s, dest2, claimed2, 0);
    match find_reference_match(s, dest, claimed, 0) {
        Some(j) => {
            assert(ref_candidate(s, dest2, claimed2, j));
            match find_reference_match(s, dest2, claimed2, 0) {
                Some(j2) => {
                    if j2 < j {
                        assert(ref_candidate(s, dest, claimed, j2));
                    }
                },
                None => {},
            }
        },
        None => {
            match find_reference_match(s, dest2, claimed2, 0) {
                Some(j2) => {
                    if j2 < dest.len() {
                        assert(ref_candidate(s, dest, claimed, j2));
                    }
                },
                None => {},
            }
        },
    }
}

/// An equivalence search over the longer ledger returns what the search
/// over the shorter one found, when their candidates agree on the shorter
/// range: the first candidate sits there, before anything appended.
proof fn lemma_find_equiv_agree_some(
    s: Transaction,
    dest: Seq<Transaction>,
    claimed: Seq<bool>,
    dest2: Seq<Transaction>,
    claimed2: Seq<bool>,
    j: int,
)
    requires
        dest.len() <= dest2.len(),
        forall|x: int|
            0 <= x < dest.len() ==> #[trigger] equiv_candidate(s, dest2, claimed2, x)
                == equiv_candidate(s, dest, claimed, x),
        find_equivalence_match(s, dest, claimed, 0) == Some(j),
    ensures
        find_equivalence_match(s, dest2, claimed2, 0) == Some(j),
{
    lemma_find_equivalence_match_props(s, dest, claimed, 0);
    lemma_find_equivalence_match_props(s, dest2, claimed2, 0);
    assert(equiv_candidate(s, dest2, claimed2, j));
    match find_equivalence_match(s, dest2, claimed2, 0) {
        Some(j2) => {
            if j2 < j {
                assert(equiv_candidate(s, dest, claimed, j2));
            }
        },
        None => {},
    }
}

/// A second pass over the synced ledger re-claims, turn for turn: the old
/// budgeting transactions exactly as the first pass claimed them, and each
/// created transaction at its creator's turn; it finds nothing to create
/// and nothing to update.
proof fn lemma_second_pass_invariant(
    src: Seq<Transaction>,
    dest: Seq<Transaction>,
    dest2: Seq<Transaction>,
    k: int,
)
    requires
        distinct_ids(src),
        references_consistent(src, dest),
        with_creations_applied(src, dest, dest2),
        0 <= k <= src.len(),
    ensures
        forall|j: int|
            0 <= j < dest.len() ==> #[trigger] claimed_after(src, dest2, k)[j] == claimed_after(
                src,
                dest,
                k,
            )[j],
        forall|p: int|
            dest.len() <= p < dest2.len() ==> (#[trigger] claimed_after(src, dest2, k)[p]
                <==> new_indices(src, dest, src.len() as int)[p - dest.len()] < k),
        new_after(src, dest2, k) == Seq::<Transaction>::empty(),
        updated_after(src, dest2, k) == Seq::<UpdatedTransaction>::empty(),
    decreases k,
{
    let created = new_indices(src, dest, src.len() as int);
    lemma_source_partition(src, dest, src.len() as int);
    lemma_claimed_after_len(src, dest, k);
    lemma_claimed_after_len(src, dest2, k);
    if k == 0 {
        assert(new_after(src, dest2, 0) =~= Seq::<Transaction>::empty());
    } else {
        let km = k - 1;
        lemma_second_pass_invariant(src, dest, dest2, km);
        let c1 = claimed_after(src, dest, km);
        let c2 = claimed_after(src, dest2, km);
        lemma_claimed_after_len(src, dest, km);
        lemma_claimed_after_len(src, dest2, km);
        let s = src[km];

        lemma_find_reference_match_props(s, dest, c1, 0);
        lemma_find_equivalence_match_props(s, dest, c1, 0);

        assert forall|x: int| 0 <= x < dest.len() implies #[trigger] ref_candidate(
            s,
            dest2,
            c2,
            x,
        ) == ref_candidate(s, dest, c1, x) by {
            assert(import_view(dest2[x]) == import_view(dest[x]));
        }
        assert forall|x: int| 0 <= x < dest.len() implies #[trigger] equiv_candidate(
            s,
            dest2,
            c2,
            x,
        ) == equiv_candidate(s, dest, c1, x) by {
            assert(key_of(dest2[x]) == key_of(dest[x]));
        }

        match find_reference_match(s, dest, c1, 0) {
            Some(j) => {
                // the first pass paired `s` by reference with `j`
                assert(!created.contains(km));
                assert forall|p: int|
                    dest.len() <= p < dest2.len() implies !#[trigger] ref_candidate(
                    s,
                    dest2,
                    c2,
                    p,
                ) by {
                    let x = p - dest.len();
                    assert(created[x] != km);
                    assert(src[created[x]].id@ != src[km].id@);
                }
                lemma_find_ref_agree(s, dest, c1, dest2, c2);
                assert(spec_imported_as(s, dest[j]));
                assert(spec_same_amount_and_date(s, dest[j]));
                assert(key_of(dest2[j]) == key_of(dest[j]));
                assert(fate_of(s, dest2, c2) == (SourceFate::ReferenceMatched {
                    j,
                    changed: false,
                }));
                assert(claimed_after(src, dest2, k) == c2.update(j, true));
                assert(claimed_after(src, dest, k) == c1.update(j, true));
                assert(new_after(src, dest2, k) == new_after(src, dest2, km));
                assert forall|p: int|
                    dest.len() <= p < dest2.len() implies (#[trigger] claimed_after(
                    src,
                    dest2,
                    k,
                )[p] <==> created[p - dest.len()] < k) by {
                    assert(created[p - dest.len()] != km);
                }
            },
            None => {
                assert forall|p: int|
                    dest.len() <= p < dest2.len() && created[p - dest.len()] != km
                        implies !#[trigger] ref_candidate(s, dest2, c2, p) by {
                    let x = p - dest.len();
                    assert(src[created[x]].id@ != src[km].id@);
                }
                match find_equivalence_match(s, dest, c1, 0) {
                    Some(j) => {
                        // the first pass paired `s` by equivalence with `j`
                        assert(!created.contains(km));
                        assert forall|p: int|
                            dest.len() <= p < dest2.len() implies !#[trigger] ref_candidate(
                            s,
                            dest2,
                            c2,
                            p,
                        ) by {
                            assert(created[p - dest.len()] != km);
                        }
                        assert forall|x: int|
                            0 <= x < dest2.len() implies !#[trigger] ref_candidate(
                            s,
                            dest2,
                            c2,
                            x,
                        ) by {}
                        lemma_find_reference_match_props(s, dest2, c2, 0);
                        assert(find_reference_match(s, dest2, c2, 0) is None);
                        lemma_find_equiv_agree_some(s, dest, c1, dest2, c2, j);
                        assert(fate_of(s, dest2, c2) == (SourceFate::EquivalenceMatched { j }));
                        assert(claimed_after(src, dest2, k) == c2.update(j, true));
                        assert(claimed_after(src, dest, k) == c1.update(j, true));
                        assert(new_after(src, dest2, k) == new_after(src, dest2, km));
                        assert forall|p: int|
                            dest.len() <= p < dest2.len() implies (#[trigger] claimed_after(
                            src,
                            dest2,
                            k,
                        )[p] <==> created[p - dest.len()] < k) by {
                            assert(created[p - dest.len()] != km);
                        }
                    },
                    None => {
                        // the first pass created `s`; the second finds that creation
                        assert(source_fate(src, dest, km) is Created);
                        assert(created.contains(km));
                        let x0 = choose|x0: int|
                            0 <= x0 < created.len() && created[x0] == km;
                        let p0 = dest.len() + x0;
                        assert(import_view(dest2[p0]) == Some(s.id@));
                        assert(!c2[p0]);
                        assert(ref_candidate(s, dest2, c2, p0));
                        lemma_find_reference_match_props(s, dest2, c2, 0);
                        let j2 = find_reference_match(s, dest2, c2, 0).unwrap();
                        assert(ref_candidate(s, dest2, c2, j2));
                        if j2 < dest.len() {
                            assert(ref_candidate(s, dest, c1, j2));
                        }
                        assert(created[j2 - dest.len()] == km);
                        assert forall|x: int, y: int|
                            0 <= x < created.len() && 0 <= y < created.len() && created[x]
                                == created[y] implies x == y by {
                            if x < y {
                                assert(created[x] < created[y]);
                            }
                            if y < x {
                                assert(created[y] < created[x]);
                            }
                        }
                        assert(j2 == p0);
                        assert(key_of(dest2[p0]) == key_of(s));
                        assert(fate_of(s, dest2, c2) == (SourceFate::ReferenceMatched {
                            j: p0,
                            changed: false,
                        }));
                        assert(claimed_after(src, dest2, k) == c2.update(p0, true));
                        assert(claimed_after(src, dest, k) == c1);
                        assert(new_after(src, dest2, k) == new_after(src, dest2, km));
                        assert forall|p: int|
                            dest.len() <= p < dest2.len() implies (#[trigger] claimed_after(
                            src,
                            dest2,
                            k,
                        )[p] <==> created[p - dest.len()] < k) by {
                            if p != p0 {
                                assert(created[p - dest.len()] != km);
                            }
                        }
                    },
                }
            },
        }
    }
}

/// No turn of the pass fell back to an equivalence match: every bank
/// transaction was paired by reference or created.
pub open spec fn equivalence_free(src: Seq<Transaction>, dest: Seq<Transaction>) -> bool {
    forall|i: int|
        0 <= i < src.len() ==> !(#[trigger] source_fate(src, dest, i) is EquivalenceMatched)
}

/// The turn whose reference match of `j` was owed an update, if any.
pub open spec fn updater_of(src: Seq<Transaction>, dest: Seq<Transaction>, j: int) -> Option<int> {
    if exists|i: int|
        0 <= i < src.len() && #[trigger] source_fate(src, dest, i)
            == (SourceFate::ReferenceMatched { j, changed: true }) {
        Some(
            choose|i: int|
                0 <= i < src.len() && #[trigger] source_fate(src, dest, i)
                    == (SourceFate::ReferenceMatched { j, changed: true }),
        )
    } else {
        None
    }
}

/// `dest2` is the budgeting ledger once the pass's writes are applied: each
/// updated transaction now carries its bank transaction's amount and date,
/// every reference is unchanged, everything else is untouched, and the
/// created transactions are appended in order as in
/// `with_creations_applied`.
pub open spec fn with_writes_applied(
    src: Seq<Transaction>,
    dest: Seq<Transaction>,
    dest2: Seq<Transaction>,
) -> bool {
    &&& dest2.len() == dest.len() + new_indices(src, dest, src.len() as int).len()
    &&& (forall|j: int|
        0 <= j < dest.len() ==> import_view(#[trigger] dest2[j]) == import_view(dest[j]))
    &&& (forall|j: int|
        0 <= j < dest.len() ==> key_of(#[trigger] dest2[j]) == match updater_of(src, dest, j) {
            Some(i) => key_of(src[i]),
            None => key_of(dest[j]),
        })
    &&& (forall|p: int|
        dest.len() <= p < dest2.len() ==> import_view(#[trigger] dest2[p]) == Some(
            src[new_indices(src, dest, src.len() as int)[p - dest.len()]].id@,
        ) && key_of(dest2[p]) == key_of(
            src[new_indices(src, dest, src.len() as int)[p - dest.len()]],
        ))
}

/// A second pass over the written ledger re-claims, turn for turn: old
/// budgeting transactions exactly as the first pass claimed them — now
/// agreeing on amount and date — and each created transaction at its
/// creator's turn; nothing to create, nothing to update.
proof fn lemma_second_pass_after_writes(
    src: Seq<Transaction>,
    dest: Seq<Transaction>,
    dest2: Seq<Transaction>,
    k: int,
)
    requires
        distinct_ids(src),
        equivalence_free(src, dest),
        with_writes_applied(src, dest, dest2),
        0 <= k <= src.len(),
    ensures
        forall|j: int|
            0 <= j < dest.len() ==> #[trigger] claimed_after(src, dest2, k)[j] == claimed_after(
                src,
                dest,
                k,
            )[j],
        forall|p: int|
            dest.len() <= p < dest2.len() ==> (#[trigger] claimed_after(src, dest2, k)[p]
                <==> new_indices(src, dest, src.len() as int)[p - dest.len()] < k),
        new_after(src, dest2, k) == Seq::<Transaction>::empty(),
        updated_after(src, dest2, k) == Seq::<UpdatedTransaction>::empty(),
    decreases k,
{
    let created = new_indices(src, dest, src.len() as int);
    lemma_source_partition(src, dest, src.len() as int);
    lemma_claimed_after_len(src, dest, k);
    lemma_claimed_after_len(src, dest2, k);
    if k == 0 {
        assert(new_after(src, dest2, 0) =~= Seq::<Transaction>::empty());
    } else {
        let km = k - 1;
        lemma_second_pass_after_writes(src, dest, dest2, km);
        let c1 = claimed_after(src, dest, km);
        let c2 = claimed_after(src, dest2, km);
        lemma_claimed_after_len(src, dest, km);
        lemma_claimed_after_len(src, dest2, km);
        let s = src[km];

        lemma_find_reference_match_props(s, dest, c1, 0);
        lemma_find_equivalence_match_props(s, dest, c1, 0);

        assert forall|x: int| 0 <= x < dest.len() implies #[trigger] ref_candidate(
            s,
            dest2,
            c2,
            x,
        ) == ref_candidate(s, dest, c1, x) by {
            assert(import_view(dest2[x]) == import_view(dest[x]));
        }

        match find_reference_match(s, dest, c1, 0) {
            Some(j) => {
                // the first pass paired `s` by reference with `j`; the
                // second finds the same pair, now in agreement
                assert(!created.contains(km));
                assert forall|p: int|
                    dest.len() <= p < dest2.len() implies !#[trigger] ref_candidate(
                    s,
                    dest2,
                    c2,
                    p,
                ) by {
                    let x = p - dest.len();
                    assert(created[x] != km);
                    assert(src[created[x]].id@ != src[km].id@);
                }
                lemma_find_ref_agree(s, dest, c1, dest2, c2);
                let changed = !spec_same_amount_and_date(s, dest[j]);
                assert(source_fate(src, dest, km) == (SourceFate::ReferenceMatched { j, changed }));
                assert(claims(src, dest, km, j));
                // the updater of `j`, when there is one, is this very turn
                match updater_of(src, dest, j) {
                    Some(i) => {
                        assert(source_fate(src, dest, i) == (SourceFate::ReferenceMatched {
                            j,
                            changed: true,
                        }));
                        assert(claims(src, dest, i, j));
                        lemma_claims_injective(src, dest, i, km, j);
                        assert(key_of(dest2[j]) == key_of(s));
                    },
                    None => {
                        if changed {
                            assert(source_fate(src, dest, km) == (SourceFate::ReferenceMatched {
                                j,
                                changed: true,
                            }));
                        }
                        assert(!changed);
                        assert(key_of(dest2[j]) == key_of(dest[j]));
                        assert(key_of(dest2[j]) == key_of(s));
                    },
                }
                assert(fate_of(s, dest2, c2) == (SourceFate::ReferenceMatched {
                    j,
                    changed: false,
                }));
                assert(claimed_after(src, dest2, k) == c2.update(j, true));
                assert(claimed_after(src, dest, k) == c1.update(j, true));
                assert(new_after(src, dest2, k) == new_after(src, dest2, km));
                assert forall|p: int|
                    dest.len() <= p < dest2.len() implies (#[trigger] claimed_after(
                    src,
                    dest2,
                    k,
                )[p] <==> created[p - dest.len()] < k) by {
                    assert(created[p - dest.len()] != km);
                }
            },
            None => {
                // no equivalence fallback happened, so the first pass
                // created `s`; the second finds that creation by reference
                assert(!(source_fate(src, dest, km) is EquivalenceMatched));
                assert(source_fate(src, dest, km) is Created);
                assert(created.contains(km));
                let x0 = choose|x0: int| 0 <= x0 < created.len() && created[x0] == km;
                let p0 = dest.len() + x0;
                assert(import_view(dest2[p0]) == Some(s.id@));
                assert(!c2[p0]);
                assert(ref_candidate(s, dest2, c2, p0));
                lemma_find_reference_match_props(s, dest2, c2, 0);
                assert forall|p: int|
                    dest.len() <= p < dest2.len() && created[p - dest.len()] != km
                        implies !#[trigger] ref_candidate(s, dest2, c2, p) by {
                    let x = p - dest.len();
                    assert(src[created[x]].id@ != src[km].id@);
                }
                let j2 = find_reference_match(s, dest2, c2, 0).unwrap();
                assert(ref_candidate(s, dest2, c2, j2));
                if j2 < dest.len() {
                    assert(ref_candidate(s, dest, c1, j2));
                }
                assert(created[j2 - dest.len()] == km);
                assert forall|x: int, y: int|
                    0 <= x < created.len() && 0 <= y < created.len() && created[x] == created[y]
                        implies x == y by {
                    if x < y {
                        assert(created[x] < created[y]);
                    }
                    if y < x {
                        assert(created[y] < created[x]);
                    }
                }
                assert(j2 == p0);
                assert(key_of(dest2[p0]) == key_of(s));
                assert(fate_of(s, dest2, c2) == (SourceFate::ReferenceMatched {
                    j: p0,
                    changed: false,
                }));
                assert(claimed_after(src, dest2, k) == c2.update(p0, true));
                assert(claimed_after(src, dest, k) == c1);
                assert(new_after(src, dest2, k) == new_after(src, dest2, km));
                assert forall|p: int|
                    dest.len() <= p < dest2.len() implies (#[trigger] claimed_after(
                    src,
                    dest2,
                    k,
                )[p] <==> created[p - dest.len()] < k) by {
                    if p != p0 {
                        assert(created[p - dest.len()] != km);
                    }
                }
            },
        }
    }
}

/// Idempotence after updates: when a pass matched every bank transaction by
/// reference or created it — no equivalence fallback — then once its
/// updates and creations are applied, a second pass over the same bank
/// transactions finds nothing to create and nothing to update. Holds when
/// the bank's ids are pairwise distinct.
pub proof fn lemma_idempotence_after_writes(
    src: Seq<Transaction>,
    dest: Seq<Transaction>,
    dest2: Seq<Transaction>,
)
    requires
        distinct_ids(src),
        equivalence_free(src, dest),
        with_writes_applied(src, dest, dest2),
    ensures
        new_after(src, dest2, src.len() as int) == Seq::<Transaction>::empty(),
        updated_after(src, dest2, src.len() as int) == Seq::<UpdatedTransaction>::empty(),
{
    lemma_second_pass_after_writes(src, dest, dest2, src.len() as int);
}

/// Idempotence: once a completed pass's creations are applied to the
/// budgeting ledger, a second pass over the same bank transactions finds
/// nothing to create and nothing to update — each bank transaction finds
/// its match again, the created ones now by reference. Holds when the
/// bank's ids are pairwise distinct and the referenced pairs agreed on
/// amount and date going in (by `lemma_no_updates_when_consistent` the
/// first pass then updates nothing, so applying its creations is all a run
/// does).
pub proof fn lemma_idempotence(
    src: Seq<Transaction>,
    dest: Seq<Transaction>,
    dest2: Seq<Transaction>,
)
    requires
        distinct_ids(src),
        references_consistent(src, dest),
        with_creations_applied(src, dest, dest2),
    ensures
        new_after(src, dest2, src.len() as int) == Seq::<Transaction>::empty(),
        updated_after(src, dest2, src.len() as int) == Seq::<UpdatedTransaction>::empty(),
{
    lemma_second_pass_invariant(src, dest, dest2, src.len() as int);
}

} // verus!
