//! The reconciliation engine. Given the bank's transactions and the
//! budgeting ledger's transactions over the same window, a single pass over
//! the bank side decides, for each bank transaction, whether it is already
//! imported (and whether it changed bank-side since), whether it coincides
//! with a manually entered budgeting transaction, or whether it is new; what
//! remains unmatched on the budgeting side is reported, not touched.
//!
//! Matching claims each budgeting transaction at most once. A reference
//! match (the budgeting transaction names the bank transaction's id) takes
//! precedence over an equivalence match (same amount and date); both take
//! the first unclaimed candidate in the budgeting ledger's order.

use vstd::prelude::*;
use crate::transaction::{
    Transaction, spec_imported_as, spec_payee_name, spec_same_amount_and_date,
};
use crate::ynab::SaveTransaction;

verus! {

/// A bank transaction paired with the budgeting-side transaction it was
/// imported as, recorded when amount or date changed bank-side after the
/// import.
#[derive(Debug)]
pub struct UpdatedTransaction {
    pub n26: Transaction,
    pub ynab: Transaction,
}

/// What one matching pass decides: bank transactions to create on the
/// budgeting side, pairs to update there, and budgeting transactions that
/// matched nothing on the bank side.
#[derive(Debug)]
pub struct Plan {
    pub new_transactions: Vec<Transaction>,
    pub updated_transactions: Vec<UpdatedTransaction>,
    pub only_ynab: Vec<Transaction>,
}

/// The budgeting transaction at `x` is unclaimed and carries a reference
/// naming `s`.
pub open spec fn ref_candidate(
    s: Transaction,
    dest: Seq<Transaction>,
    claimed: Seq<bool>,
    x: int,
) -> bool {
    !claimed[x] && spec_imported_as(s, dest[x])
}

/// The budgeting transaction at `x` is unclaimed and agrees with `s` on
/// amount and date.
pub open spec fn equiv_candidate(
    s: Transaction,
    dest: Seq<Transaction>,
    claimed: Seq<bool>,
    x: int,
) -> bool {
    !claimed[x] && spec_same_amount_and_date(s, dest[x])
}

/// The first budgeting transaction at or after `j` that is unclaimed and
/// carries a reference naming `s`.
pub open spec fn find_reference_match(
    s: Transaction,
    dest: Seq<Transaction>,
    claimed: Seq<bool>,
    j: int,
) -> Option<int>
    decreases dest.len() - j,
{
    if j < 0 || j >= dest.len() {
        None
    } else if ref_candidate(s, dest, claimed, j) {
        Some(j)
    } else {
        find_reference_match(s, dest, claimed, j + 1)
    }
}

/// The first budgeting transaction at or after `j` that is unclaimed and
/// agrees with `s` on amount and date.
pub open spec fn find_equivalence_match(
    s: Transaction,
    dest: Seq<Transaction>,
    claimed: Seq<bool>,
    j: int,
) -> Option<int>
    decreases dest.len() - j,
{
    if j < 0 || j >= dest.len() {
        None
    } else if equiv_candidate(s, dest, claimed, j) {
        Some(j)
    } else {
        find_equivalence_match(s, dest, claimed, j + 1)
    }
}

/// The reference search finds exactly the first unclaimed budgeting
/// transaction at or after `j0` whose reference names `s`, and `None` only
/// when there is none.
pub proof fn lemma_find_reference_match_props(
    s: Transaction,
    dest: Seq<Transaction>,
    claimed: Seq<bool>,
    j0: int,
)
    requires
        0 <= j0,
    ensures
        match find_reference_match(s, dest, claimed, j0) {
            Some(j) => {
                &&& j0 <= j < dest.len()
                &&& ref_candidate(s, dest, claimed, j)
                &&& forall|x: int| j0 <= x < j ==> !#[trigger] ref_candidate(s, dest, claimed, x)
            },
            None => forall|x: int|
                j0 <= x < dest.len() ==> !#[trigger] ref_candidate(s, dest, claimed, x),
        },
    decreases dest.len() - j0,
{
    if j0 < dest.len() && !ref_candidate(s, dest, claimed, j0) {
        lemma_find_reference_match_props(s, dest, claimed, j0 + 1);
    }
}

/// The equivalence search finds exactly the first unclaimed budgeting
/// transaction at or after `j0` with `s`'s amount and date, and `None` only
/// when there is none.
pub proof fn lemma_find_equivalence_match_props(
    s: Transaction,
    dest: Seq<Transaction>,
    claimed: Seq<bool>,
    j0: int,
)
    requires
        0 <= j0,
    ensures
        match find_equivalence_match(s, dest, claimed, j0) {
            Some(j) => {
                &&& j0 <= j < dest.len()
                &&& equiv_candidate(s, dest, claimed, j)
                &&& forall|x: int| j0 <= x < j ==> !#[trigger] equiv_candidate(s, dest, claimed, x)
            },
            None => forall|x: int|
                j0 <= x < dest.len() ==> !#[trigger] equiv_candidate(s, dest, claimed, x),
        },
    decreases dest.len() - j0,
{
    if j0 < dest.len() && !equiv_candidate(s, dest, claimed, j0) {
        lemma_find_equivalence_match_props(s, dest, claimed, j0 + 1);
    }
}

/// How one bank transaction fares at its turn of the pass, given which
/// budgeting transactions are already claimed.
pub enum SourceFate {
    /// A budgeting transaction at `j` names it; `changed` records whether
    /// amount or date differ, so that an update is owed.
    ReferenceMatched { j: int, changed: bool },
    /// No reference names it, but the unclaimed budgeting transaction at `j`
    /// has the same amount and date: taken as manually entered, claimed,
    /// left alone.
    EquivalenceMatched { j: int },
    /// Nothing matched: it is to be created on the budgeting side.
    Created,
}

/// The fate of `s`, matched against `dest` with `claimed` already claimed:
/// the reference match if one exists, else the equivalence match if one
/// exists, else creation.
pub open spec fn fate_of(s: Transaction, dest: Seq<Transaction>, claimed: Seq<bool>) -> SourceFate {
    match find_reference_match(s, dest, claimed, 0) {
        Some(j) => SourceFate::ReferenceMatched {
            j,
            changed: !spec_same_amount_and_date(s, dest[j]),
        },
        None => match find_equivalence_match(s, dest, claimed, 0) {
            Some(j) => SourceFate::EquivalenceMatched { j },
            None => SourceFate::Created,
        },
    }
}

/// The budgeting transaction a fate claims, if any.
pub open spec fn claim_of(fate: SourceFate) -> Option<int> {
    match fate {
        SourceFate::ReferenceMatched { j, changed } => Some(j),
        SourceFate::EquivalenceMatched { j } => Some(j),
        SourceFate::Created => None,
    }
}

/// Which budgeting transactions are claimed once the first `k` bank
/// transactions have had their turn.
pub open spec fn claimed_after(src: Seq<Transaction>, dest: Seq<Transaction>, k: int) -> Seq<bool>
    decreases k,
{
    if k <= 0 {
        Seq::new(dest.len(), |j: int| false)
    } else {
        let c = claimed_after(src, dest, k - 1);
        match claim_of(fate_of(src[k - 1], dest, c)) {
            Some(j) => c.update(j, true),
            None => c,
        }
    }
}

/// The fate of the bank transaction at `i`, at its turn of the pass.
pub open spec fn source_fate(src: Seq<Transaction>, dest: Seq<Transaction>, i: int) -> SourceFate {
    fate_of(src[i], dest, claimed_after(src, dest, i))
}

/// The indices of the bank transactions among the first `k` that the pass
/// decides to create, in the bank's order.
pub open spec fn new_indices(src: Seq<Transaction>, dest: Seq<Transaction>, k: int) -> Seq<int>
    decreases k,
{
    if k <= 0 {
        Seq::empty()
    } else if source_fate(src, dest, k - 1) is Created {
        new_indices(src, dest, k - 1).push(k - 1)
    } else {
        new_indices(src, dest, k - 1)
    }
}

/// The bank transactions among the first `k` that the pass decides to
/// create, in the bank's order.
pub open spec fn new_after(src: Seq<Transaction>, dest: Seq<Transaction>, k: int) -> Seq<Transaction> {
    new_indices(src, dest, k).map_values(|i: int| src[i])
}

/// The pairs among the first `k` bank transactions that the pass decides to
/// update on the budgeting side, in the bank's order.
pub open spec fn updated_after(
    src: Seq<Transaction>,
    dest: Seq<Transaction>,
    k: int,
) -> Seq<UpdatedTransaction>
    decreases k,
{
    if k <= 0 {
        Seq::empty()
    } else {
        let prev = updated_after(src, dest, k - 1);
        match source_fate(src, dest, k - 1) {
            SourceFate::ReferenceMatched { j, changed } => if changed {
                prev.push(UpdatedTransaction { n26: src[k - 1], ynab: dest[j] })
            } else {
                prev
            },
            _ => prev,
        }
    }
}

/// The budgeting transactions among the first `j` that `claimed` leaves
/// unclaimed, in the budgeting ledger's order.
pub open spec fn unclaimed_prefix(
    dest: Seq<Transaction>,
    claimed: Seq<bool>,
    j: int,
) -> Seq<Transaction>
    decreases j,
{
    if j <= 0 {
        Seq::empty()
    } else if claimed[j - 1] {
        unclaimed_prefix(dest, claimed, j - 1)
    } else {
        unclaimed_prefix(dest, claimed, j - 1).push(dest[j - 1])
    }
}

/// The budgeting transactions the whole pass leaves unmatched.
pub open spec fn only_ynab_of(src: Seq<Transaction>, dest: Seq<Transaction>) -> Seq<Transaction> {
    unclaimed_prefix(dest, claimed_after(src, dest, src.len() as int), dest.len() as int)
}

/// A fate claims only an unclaimed budgeting transaction, in range.
pub proof fn lemma_claim_props(s: Transaction, dest: Seq<Transaction>, claimed: Seq<bool>)
    ensures
        match claim_of(fate_of(s, dest, claimed)) {
            Some(j) => 0 <= j < dest.len() && !claimed[j],
            None => true,
        },
{
    lemma_find_reference_match_props(s, dest, claimed, 0);
    lemma_find_equivalence_match_props(s, dest, claimed, 0);
}

/// The claim state always covers the budgeting ledger, whatever the turn.
pub proof fn lemma_claimed_after_len(src: Seq<Transaction>, dest: Seq<Transaction>, k: int)
    requires
        0 <= k,
    ensures
        claimed_after(src, dest, k).len() == dest.len(),
    decreases k,
{
    if k > 0 {
        lemma_claimed_after_len(src, dest, k - 1);
        lemma_claim_props(src[k - 1], dest, claimed_after(src, dest, k - 1));
    }
}

fn find_import_match(s: &Transaction, dest: &Vec<Transaction>, claimed: &Vec<bool>) -> (r: Option<
    usize,
>)
    requires
        claimed@.len() == dest@.len(),
    ensures
        match r {
            Some(j) => j < dest@.len() && find_reference_match(*s, dest@, claimed@, 0) == Some(
                j as int,
            ),
            None => find_reference_match(*s, dest@, claimed@, 0) is None,
        },
{
    let mut j: usize = 0;
    while j < dest.len()
        invariant
            j <= dest@.len(),
            claimed@.len() == dest@.len(),
            find_reference_match(*s, dest@, claimed@, 0) == find_reference_match(
                *s,
                dest@,
                claimed@,
                j as int,
            ),
        decreases dest@.len() - j,
    {
        if !claimed[j] && s.imported_as(&dest[j]) {
            return Some(j);
        }
        j = j + 1;
    }
    None
}

fn find_equiv_match(s: &Transaction, dest: &Vec<Transaction>, claimed: &Vec<bool>) -> (r: Option<
    usize,
>)
    requires
        claimed@.len() == dest@.len(),
    ensures
        match r {
            Some(j) => j < dest@.len() && find_equivalence_match(*s, dest@, claimed@, 0) == Some(
                j as int,
            ),
            None => find_equivalence_match(*s, dest@, claimed@, 0) is None,
        },
{
    let mut j: usize = 0;
    while j < dest.len()
        invariant
            j <= dest@.len(),
            claimed@.len() == dest@.len(),
            find_equivalence_match(*s, dest@, claimed@, 0) == find_equivalence_match(
                *s,
                dest@,
                claimed@,
                j as int,
            ),
        decreases dest@.len() - j,
    {
        if !claimed[j] && s.same_amount_and_date(&dest[j]) {
            return Some(j);
        }
        j = j + 1;
    }
    None
}

/// One full matching pass: for each bank transaction in the bank's order,
/// claim its reference match if one is unclaimed, else its equivalence
/// match if one is unclaimed, else mark it for creation; a reference match
/// whose amount or date changed is marked for update. What stays unclaimed
/// on the budgeting side is reported as `only_ynab`.
pub fn plan(n26_transactions: &Vec<Transaction>, ynab_transactions: &Vec<Transaction>) -> (p: Plan)
    ensures
        p.new_transactions@ == new_after(
            n26_transactions@,
            ynab_transactions@,
            n26_transactions@.len() as int,
        ),
        p.updated_transactions@ == updated_after(
            n26_transactions@,
            ynab_transactions@,
            n26_transactions@.len() as int,
        ),
        p.only_ynab@ == only_ynab_of(n26_transactions@, ynab_transactions@),
{
    let ghost gsrc = n26_transactions@;
    let ghost gdest = ynab_transactions@;

    let mut claimed: Vec<bool> = Vec::new();
    let mut j: usize = 0;
    while j < ynab_transactions.len()
        invariant
            j <= gdest.len(),
            gdest == ynab_transactions@,
            claimed@ == Seq::new(j as nat, |x: int| false),
        decreases gdest.len() - j,
    {
        claimed.push(false);
        assert(claimed@ =~= Seq::new((j + 1) as nat, |x: int| false));
        j = j + 1;
    }
    assert(claimed@ =~= claimed_after(gsrc, gdest, 0));

    let mut new_transactions: Vec<Transaction> = Vec::new();
    let mut updated_transactions: Vec<UpdatedTransaction> = Vec::new();

    let mut i: usize = 0;
    while i < n26_transactions.len()
        invariant
            i <= gsrc.len(),
            gsrc == n26_transactions@,
            gdest == ynab_transactions@,
            claimed@ == claimed_after(gsrc, gdest, i as int),
            claimed@.len() == gdest.len(),
            new_transactions@ == new_after(gsrc, gdest, i as int),
            updated_transactions@ == updated_after(gsrc, gdest, i as int),
        decreases gsrc.len() - i,
    {
        let s = &n26_transactions[i];
        proof {
            lemma_claimed_after_len(gsrc, gdest, i as int);
        }
        match find_import_match(s, ynab_transactions, &claimed) {
            Some(m) => {
                let changed = !s.same_amount_and_date(&ynab_transactions[m]);
                claimed.set(m, true);
                assert(source_fate(gsrc, gdest, i as int) == (SourceFate::ReferenceMatched {
                    j: m as int,
                    changed,
                }));
                if changed {
                    updated_transactions.push(
                        UpdatedTransaction { n26: s.clone(), ynab: ynab_transactions[m].clone() },
                    );
                }
                assert(new_after(gsrc, gdest, i + 1) =~= new_after(gsrc, gdest, i as int));
            },
            None => {
                match find_equiv_match(s, ynab_transactions, &claimed) {
                    Some(m) => {
                        claimed.set(m, true);
                        assert(source_fate(gsrc, gdest, i as int)
                            == (SourceFate::EquivalenceMatched { j: m as int }));
                        assert(new_after(gsrc, gdest, i + 1) =~= new_after(gsrc, gdest, i as int));
                    },
                    None => {
                        new_transactions.push(s.clone());
                        assert(source_fate(gsrc, gdest, i as int) == SourceFate::Created);
                        assert(new_after(gsrc, gdest, i + 1) =~= new_after(
                            gsrc,
                            gdest,
                            i as int,
                        ).push(gsrc[i as int]));
                    },
                }
            },
        }
        i = i + 1;
    }

    let ghost final_claimed = claimed_after(gsrc, gdest, gsrc.len() as int);
    let mut only_ynab: Vec<Transaction> = Vec::new();
    let mut j2: usize = 0;
    while j2 < ynab_transactions.len()
        invariant
            j2 <= gdest.len(),
            gdest == ynab_transactions@,
            claimed@ == final_claimed,
            claimed@.len() == gdest.len(),
            only_ynab@ == unclaimed_prefix(gdest, final_claimed, j2 as int),
        decreases gdest.len() - j2,
    {
        if !claimed[j2] {
            only_ynab.push(ynab_transactions[j2].clone());
        }
        j2 = j2 + 1;
    }

    Plan { new_transactions, updated_transactions, only_ynab }
}

/// In the write operation creating `t` on the budgeting side: no target id,
/// cents scaled back to milliunits, the bank transaction's id as the
/// reference, and the payee when the label names one.
pub open spec fn spec_save_new(account_id: String, t: Transaction) -> SaveTransaction {
    SaveTransaction {
        id: None,
        account_id: account_id,
        amount_in_milliunits: (t.amount_in_cents * 10) as i32,
        date: t.date,
        import_id: t.id,
        payee_name: spec_payee_name(t),
    }
}

/// In the write operation updating the pair `u`: the budgeting transaction
/// as target, the bank side's fresh amount and date, the bank transaction's
/// id re-asserted as the reference, and the budgeting side's payee kept when
/// it names one, else the bank side's.
pub open spec fn spec_save_update(account_id: String, u: UpdatedTransaction) -> SaveTransaction {
    SaveTransaction {
        id: Some(u.ynab.id),
        account_id: account_id,
        amount_in_milliunits: (u.n26.amount_in_cents * 10) as i32,
        date: u.n26.date,
        import_id: u.n26.id,
        payee_name: match spec_payee_name(u.ynab) {
            Some(p) => Some(p),
            None => spec_payee_name(u.n26),
        },
    }
}

/// The batch of create operations for the bank transactions a pass found
/// new, in the same order.
pub fn new_save_transactions(account_id: &String, new_transactions: &Vec<Transaction>) -> (ops: Vec<
    SaveTransaction,
>)
    requires
        forall|i: int|
            0 <= i < new_transactions@.len() ==> i32::MIN <= (
            #[trigger] new_transactions@[i]).amount_in_cents * 10 <= i32::MAX,
    ensures
        ops@.len() == new_transactions@.len(),
        forall|i: int|
            0 <= i < ops@.len() ==> #[trigger] ops@[i] == spec_save_new(
                *account_id,
                new_transactions@[i],
            ),
{
    let mut ops: Vec<SaveTransaction> = Vec::new();
    let mut i: usize = 0;
    while i < new_transactions.len()
        invariant
            i <= new_transactions@.len(),
            forall|x: int|
                0 <= x < new_transactions@.len() ==> i32::MIN <= (
                #[trigger] new_transactions@[x]).amount_in_cents * 10 <= i32::MAX,
            ops@.len() == i,
            forall|x: int|
                0 <= x < i ==> #[trigger] ops@[x] == spec_save_new(
                    *account_id,
                    new_transactions@[x],
                ),
        decreases new_transactions@.len() - i,
    {
        let t = &new_transactions[i];
        ops.push(
            SaveTransaction {
                id: None,
                account_id: account_id.clone(),
                amount_in_milliunits: t.amount_in_cents * 10,
                date: t.date.clone(),
                import_id: t.id.clone(),
                payee_name: t.payee_name(),
            },
        );
        i = i + 1;
    }
    ops
}

/// The batch of update operations for the pairs a pass found changed, in
/// the same order.
pub fn update_save_transactions(
    account_id: &String,
    updated_transactions: &Vec<UpdatedTransaction>,
) -> (ops: Vec<SaveTransaction>)
    requires
        forall|i: int|
            0 <= i < updated_transactions@.len() ==> i32::MIN <= (
            #[trigger] updated_transactions@[i]).n26.amount_in_cents * 10 <= i32::MAX,
    ensures
        ops@.len() == updated_transactions@.len(),
        forall|i: int|
            0 <= i < ops@.len() ==> #[trigger] ops@[i] == spec_save_update(
                *account_id,
                updated_transactions@[i],
            ),
{
    let mut ops: Vec<SaveTransaction> = Vec::new();
    let mut i: usize = 0;
    while i < updated_transactions.len()
        invariant
            i <= updated_transactions@.len(),
            forall|x: int|
                0 <= x < updated_transactions@.len() ==> i32::MIN <= (
                #[trigger] updated_transactions@[x]).n26.amount_in_cents * 10 <= i32::MAX,
            ops@.len() == i,
            forall|x: int|
                0 <= x < i ==> #[trigger] ops@[x] == spec_save_update(
                    *account_id,
                    updated_transactions@[x],
                ),
        decreases updated_transactions@.len() - i,
    {
        let u = &updated_transactions[i];
        let payee_name = match u.ynab.payee_name() {
            Some(p) => Some(p),
            None => u.n26.payee_name(),
        };
        ops.push(
            SaveTransaction {
                id: Some(u.ynab.id.clone()),
                account_id: account_id.clone(),
                amount_in_milliunits: u.n26.amount_in_cents * 10,
                date: u.n26.date.clone(),
                import_id: u.n26.id.clone(),
                payee_name,
            },
        );
        i = i + 1;
    }
    ops
}

} // verus!
