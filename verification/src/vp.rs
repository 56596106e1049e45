//! Validity predicates: what each one decided, and the result of all of them.
//!
//! The predicates of a transaction run outside this library, each with its
//! own gas meter. What comes back from each is a [`VpOutcome`]; the functions
//! here fold the outcomes into one [`VpsResult`].

use crate::address::{address_texts, Address, AddressSet, AddressView};
use crate::gas::VpGasMeter;
use crate::order::{insert_once, lemma_union_order_single, union_order};
use crate::text::{
    bool_text, bool_to_string, clone_strings, decimal_texts, list_text, list_to_string,
    numbers_to_strings, string_views,
};
use vstd::prelude::*;
use vstd::relations::{
    antisymmetric, reflexive, sorted_by, strongly_connected, total_ordering, transitive,
};
use vstd::seq_lib::{
    lemma_seq_union_to_multiset_commutative, lemma_sorted_unique, to_multiset_build,
    to_multiset_insert,
};

verus! {

/// What a validity predicate said.
#[derive(Clone, Copy, Debug, PartialEq, Eq, Structural)]
pub enum VpVerdict {
    /// The predicate accepted the transaction.
    Accepted,
    /// The predicate rejected the transaction.
    Rejected,
    /// The predicate did not finish: it ran out of gas, trapped, or misused
    /// the host.
    HostError,
}

/// What came back from one run of a validity predicate.
#[derive(Clone, Copy, Debug, PartialEq, Eq, Structural)]
pub struct VpOutcome {
    /// What the predicate said.
    pub verdict: VpVerdict,
    /// The predicate's gas meter when it stopped.
    pub gas_meter: VpGasMeter,
}

impl VpOutcome {
    /// What the predicate counts as having said: a predicate that left the
    /// transaction's gas envelope counts as a host error, whatever it said.
    pub open spec fn effective_verdict(self) -> VpVerdict {
        if self.gas_meter.within_limit() {
            self.verdict
        } else {
            VpVerdict::HostError
        }
    }
}

/// One validity predicate to run: the verifier, the changed keys that
/// concern it, and its code.
#[derive(Debug)]
pub struct VpJob {
    /// The account whose predicate is to run.
    pub address: Address,
    /// The changed keys in which the account appears, in text.
    pub keys: Vec<String>,
    /// The code of the predicate, if the account has one.
    pub vp: Option<Vec<u8>>,
}

/// What a [`VpJob`] stands for in contracts.
pub struct VpJobView {
    pub address: AddressView,
    pub keys: Seq<Seq<char>>,
    pub vp: Option<Seq<u8>>,
}

impl View for VpJob {
    type V = VpJobView;

    open spec fn view(&self) -> VpJobView {
        VpJobView {
            address: self.address@,
            keys: string_views(self.keys@),
            vp: match self.vp {
                Some(code) => Some(code@),
                None => None,
            },
        }
    }
}

/// The views of a sequence of jobs, in the same order.
pub open spec fn job_views(jobs: Seq<VpJob>) -> Seq<VpJobView> {
    jobs.map_values(|job: VpJob| job@)
}

/// What a job counts as having said, and the gas it counts as having used. A
/// job without code, or one for which nothing came back, counts as a host
/// error that used no gas.
pub open spec fn job_outcome(job: VpJobView, outcome: Option<VpOutcome>) -> (VpVerdict, u64) {
    match outcome {
        Some(o) => if job.vp.is_some() {
            (o.effective_verdict(), o.gas_meter.vp_gas)
        } else {
            (VpVerdict::HostError, 0)
        },
        None => (VpVerdict::HostError, 0),
    }
}

/// What a [`VpsResult`] stands for in contracts.
pub struct VpsResultView {
    /// The verifiers whose predicate accepted.
    pub accepted: Set<AddressView>,
    /// The verifiers whose predicate rejected or did not finish.
    pub rejected: Set<AddressView>,
    /// The keys handed to the predicates, in the order in which they ran.
    pub changed_keys: Seq<Seq<char>>,
    /// The gas that each predicate used.
    pub gas_used: Seq<u64>,
    /// Some predicate did not finish.
    pub have_error: bool,
}

/// The result before any predicate has run.
pub open spec fn empty_result() -> VpsResultView {
    VpsResultView {
        accepted: Set::empty(),
        rejected: Set::empty(),
        changed_keys: Seq::empty(),
        gas_used: Seq::empty(),
        have_error: false,
    }
}

/// Two results taken together.
pub open spec fn merge_views(a: VpsResultView, b: VpsResultView) -> VpsResultView {
    VpsResultView {
        accepted: a.accepted.union(b.accepted),
        rejected: a.rejected.union(b.rejected),
        changed_keys: a.changed_keys + b.changed_keys,
        gas_used: a.gas_used + b.gas_used,
        have_error: a.have_error || b.have_error,
    }
}

/// A result with one more predicate.
pub open spec fn run_vp_view(result: VpsResultView, job: VpJobView, outcome: Option<VpOutcome>) -> VpsResultView {
    let (verdict, gas) = job_outcome(job, outcome);
    VpsResultView {
        accepted: if verdict == VpVerdict::Accepted {
            result.accepted.insert(job.address)
        } else {
            result.accepted
        },
        rejected: if verdict == VpVerdict::Accepted {
            result.rejected
        } else {
            result.rejected.insert(job.address)
        },
        changed_keys: result.changed_keys + job.keys,
        gas_used: result.gas_used.push(gas),
        have_error: result.have_error || verdict == VpVerdict::HostError,
    }
}

/// The verifiers in the order in which their predicates accepted or
/// rejected.
pub struct VerdictOrder {
    pub accepted: Seq<AddressView>,
    pub rejected: Seq<AddressView>,
}

/// The order before any predicate has run.
pub open spec fn empty_order() -> VerdictOrder {
    VerdictOrder { accepted: Seq::empty(), rejected: Seq::empty() }
}

/// The order with one more predicate.
pub open spec fn run_vp_order(order: VerdictOrder, job: VpJobView, outcome: Option<VpOutcome>) -> VerdictOrder {
    if job_outcome(job, outcome).0 == VpVerdict::Accepted {
        VerdictOrder { accepted: insert_once(order.accepted, job.address), ..order }
    } else {
        VerdictOrder { rejected: insert_once(order.rejected, job.address), ..order }
    }
}

/// The order of the verifiers after the first `n` jobs.
pub open spec fn fold_order(jobs: Seq<VpJobView>, outcomes: Seq<VpOutcome>, n: nat) -> VerdictOrder
    decreases n,
{
    if n == 0 {
        empty_order()
    } else {
        run_vp_order(
            fold_order(jobs, outcomes, (n - 1) as nat),
            jobs[n - 1],
            outcome_at(outcomes, n - 1),
        )
    }
}

/// Two orders taken together.
pub open spec fn merge_orders(a: VerdictOrder, b: VerdictOrder) -> VerdictOrder {
    VerdictOrder {
        accepted: union_order(a.accepted, b.accepted),
        rejected: union_order(a.rejected, b.rejected),
    }
}

/// What came back for the job at position `i`, if anything.
pub open spec fn outcome_at(outcomes: Seq<VpOutcome>, i: int) -> Option<VpOutcome> {
    if 0 <= i < outcomes.len() {
        Some(outcomes[i])
    } else {
        None
    }
}

/// The result of the first `n` jobs, each run to its end.
pub open spec fn fold_vps(jobs: Seq<VpJobView>, outcomes: Seq<VpOutcome>, n: nat) -> VpsResultView
    decreases n,
{
    if n == 0 {
        empty_result()
    } else {
        run_vp_view(
            fold_vps(jobs, outcomes, (n - 1) as nat),
            jobs[n - 1],
            outcome_at(outcomes, n - 1),
        )
    }
}

/// The verifiers of a sequence of jobs, in the same order.
pub open spec fn job_addresses(jobs: Seq<VpJobView>) -> Seq<AddressView> {
    jobs.map_values(|job: VpJobView| job.address)
}

/// No verifier is both accepted and rejected, every verifier in the result
/// belongs to one of the first `n` jobs, and each of these jobs has one gas
/// cost in the result.
pub open spec fn result_invariant(result: VpsResultView, jobs: Seq<VpJobView>, n: nat) -> bool {
    &&& result.accepted.disjoint(result.rejected)
    &&& result.gas_used.len() == n
    &&& forall|a: AddressView|
        result.accepted.contains(a) || result.rejected.contains(a) ==> exists|i: int|
            0 <= i < n && #[trigger] job_addresses(jobs)[i] == a
}

/// One more job keeps the invariant of the result, if its verifier is not
/// among the jobs before it.
pub proof fn lemma_run_vp_invariant(
    result: VpsResultView,
    jobs: Seq<VpJobView>,
    n: nat,
    outcome: Option<VpOutcome>,
)
    requires
        n < jobs.len(),
        job_addresses(jobs).no_duplicates(),
        result_invariant(result, jobs, n),
    ensures
        result_invariant(run_vp_view(result, jobs[n as int], outcome), jobs, n + 1),
{
    let address = jobs[n as int].address;
    let next = run_vp_view(result, jobs[n as int], outcome);
    assert(job_addresses(jobs)[n as int] == address);
    assert forall|a: AddressView|
        next.accepted.contains(a) || next.rejected.contains(a) implies exists|i: int|
        0 <= i < n + 1 && #[trigger] job_addresses(jobs)[i] == a by {
        if a == address {
            assert(job_addresses(jobs)[n as int] == a);
        } else {
            let i = choose|i: int| 0 <= i < n && #[trigger] job_addresses(jobs)[i] == a;
            assert(job_addresses(jobs)[i] == a);
        }
    }
    assert(!result.accepted.contains(address) && !result.rejected.contains(address)) by {
        if result.accepted.contains(address) || result.rejected.contains(address) {
            let i = choose|i: int| 0 <= i < n && #[trigger] job_addresses(jobs)[i] == address;
            assert(job_addresses(jobs)[i] == job_addresses(jobs)[n as int]);
        }
    }
    assert(next.accepted.disjoint(next.rejected)) by {
        assert forall|a: AddressView| !(next.accepted.contains(a) && next.rejected.contains(a)) by {
            if a != address {
                assert(!(result.accepted.contains(a) && result.rejected.contains(a)));
            }
        }
    }
}

/// Where each verifier has one job, no verifier is both accepted and
/// rejected, and every job has one gas cost in the result.
pub proof fn lemma_fold_vps_invariant(jobs: Seq<VpJobView>, outcomes: Seq<VpOutcome>, n: nat)
    requires
        n <= jobs.len(),
        job_addresses(jobs).no_duplicates(),
    ensures
        result_invariant(fold_vps(jobs, outcomes, n), jobs, n),
    decreases n,
{
    if n > 0 {
        let before = (n - 1) as nat;
        lemma_fold_vps_invariant(jobs, outcomes, before);
        lemma_run_vp_invariant(
            fold_vps(jobs, outcomes, before),
            jobs,
            before,
            outcome_at(outcomes, n - 1),
        );
    }
}

/// The gas that the job at position `i` counts as having used.
pub open spec fn job_gas(jobs: Seq<VpJobView>, outcomes: Seq<VpOutcome>, i: int) -> u64 {
    job_outcome(jobs[i], outcome_at(outcomes, i)).1
}

/// The gas that each job counts as having used, in the order of the jobs.
pub open spec fn job_gases(jobs: Seq<VpJobView>, outcomes: Seq<VpOutcome>) -> Seq<u64> {
    Seq::new(jobs.len(), |i: int| job_gas(jobs, outcomes, i))
}

/// The result holds the gas of every job, in the order of the jobs, and
/// every job is among the accepted or among the rejected: a job that counts
/// as having accepted among the accepted, every other among the rejected.
pub proof fn lemma_fold_vps_complete(jobs: Seq<VpJobView>, outcomes: Seq<VpOutcome>, n: nat)
    requires
        n <= jobs.len(),
    ensures
        fold_vps(jobs, outcomes, n).gas_used.len() == n,
        forall|i: int|
            0 <= i < n ==> #[trigger] fold_vps(jobs, outcomes, n).gas_used[i] == job_gas(
                jobs,
                outcomes,
                i,
            ),
        forall|i: int|
            0 <= i < n ==> if job_outcome(#[trigger] jobs[i], outcome_at(outcomes, i)).0
                == VpVerdict::Accepted {
                fold_vps(jobs, outcomes, n).accepted.contains(jobs[i].address)
            } else {
                fold_vps(jobs, outcomes, n).rejected.contains(jobs[i].address)
            },
        fold_vps(jobs, outcomes, n).have_error <==> exists|i: int|
            0 <= i < n && job_outcome(#[trigger] jobs[i], outcome_at(outcomes, i)).0
                == VpVerdict::HostError,
    decreases n,
{
    if n > 0 {
        let before = (n - 1) as nat;
        lemma_fold_vps_complete(jobs, outcomes, before);
        let prev = fold_vps(jobs, outcomes, before);
        let next = fold_vps(jobs, outcomes, n);
        assert forall|i: int| 0 <= i < n implies #[trigger] next.gas_used[i] == job_gas(
            jobs,
            outcomes,
            i,
        ) by {
            if i < before {
                assert(next.gas_used[i] == prev.gas_used[i]);
            }
        }
        if prev.have_error {
            let i = choose|i: int|
                0 <= i < before && job_outcome(#[trigger] jobs[i], outcome_at(outcomes, i)).0
                    == VpVerdict::HostError;
            assert(job_outcome(jobs[i], outcome_at(outcomes, i)).0 == VpVerdict::HostError);
        }
        if job_outcome(jobs[n - 1], outcome_at(outcomes, n - 1)).0 == VpVerdict::HostError {
            assert(next.have_error);
        }
    }
}

/// Merging results is associative.
pub proof fn lemma_merge_associative(a: VpsResultView, b: VpsResultView, c: VpsResultView)
    ensures
        merge_views(merge_views(a, b), c) == merge_views(a, merge_views(b, c)),
{
    let left = merge_views(merge_views(a, b), c);
    let right = merge_views(a, merge_views(b, c));
    assert(left.accepted =~= right.accepted);
    assert(left.rejected =~= right.rejected);
    assert(left.changed_keys =~= right.changed_keys);
    assert(left.gas_used =~= right.gas_used);
}

/// Merging results is commutative: the sets and the error flag are the same
/// either way, and the keys and the gas costs are the same up to their
/// order.
pub proof fn lemma_merge_commutative(a: VpsResultView, b: VpsResultView)
    ensures
        merge_views(a, b).accepted == merge_views(b, a).accepted,
        merge_views(a, b).rejected == merge_views(b, a).rejected,
        merge_views(a, b).have_error == merge_views(b, a).have_error,
        merge_views(a, b).changed_keys.to_multiset() == merge_views(
            b,
            a,
        ).changed_keys.to_multiset(),
        merge_views(a, b).gas_used.to_multiset() == merge_views(b, a).gas_used.to_multiset(),
{
    assert(merge_views(a, b).accepted =~= merge_views(b, a).accepted);
    assert(merge_views(a, b).rejected =~= merge_views(b, a).rejected);
    lemma_seq_union_to_multiset_commutative(a.changed_keys, b.changed_keys);
    lemma_seq_union_to_multiset_commutative(a.gas_used, b.gas_used);
}

/// A predicate that left the gas envelope of its transaction is rejected
/// with a host error.
pub proof fn lemma_gas_envelope(result: VpsResultView, job: VpJobView, outcome: VpOutcome)
    requires
        !outcome.gas_meter.within_limit(),
    ensures
        run_vp_view(result, job, Some(outcome)).rejected.contains(job.address),
        run_vp_view(result, job, Some(outcome)).have_error,
        run_vp_view(result, job, Some(outcome)).accepted == result.accepted,
{
}

/// A result in words: the accepted and the rejected verifiers in their
/// order, the keys, the gas costs, and whether there was an error.
pub open spec fn vps_text(result: VpsResultView, order: VerdictOrder) -> Seq<char> {
    "Vps -> accepted: "@ + list_text(address_texts(order.accepted)) + ". rejected: "@ + list_text(
        address_texts(order.rejected),
    ) + ", keys: "@ + list_text(result.changed_keys) + ", gas_used: "@ + list_text(
        decimal_texts(result.gas_used),
    ) + ", error: "@ + bool_text(result.have_error)
}

/// The outcome of the validity predicates of one transaction.
#[derive(Debug)]
pub struct VpsResult {
    pub accepted_vps: AddressSet,
    pub rejected_vps: AddressSet,
    pub changed_keys: Vec<String>,
    pub gas_used: Vec<u64>,
    pub have_error: bool,
}

impl View for VpsResult {
    type V = VpsResultView;

    open spec fn view(&self) -> VpsResultView {
        VpsResultView {
            accepted: self.accepted_vps@,
            rejected: self.rejected_vps@,
            changed_keys: string_views(self.changed_keys@),
            gas_used: self.gas_used@,
            have_error: self.have_error,
        }
    }
}

impl Clone for VpsResult {
    fn clone(&self) -> (copy: VpsResult)
        ensures
            copy@ == self@,
            copy.order() == self.order(),
            copy.wf() == self.wf(),
    {
        VpsResult {
            accepted_vps: self.accepted_vps.clone(),
            rejected_vps: self.rejected_vps.clone(),
            changed_keys: clone_strings(&self.changed_keys),
            gas_used: self.gas_used.clone(),
            have_error: self.have_error,
        }
    }
}

impl Default for VpsResult {
    /// The result before any predicate has run.
    fn default() -> (result: VpsResult)
        ensures
            result.wf(),
            result@ == empty_result(),
            result.order() == empty_order(),
    {
        let result = VpsResult {
            accepted_vps: AddressSet::new(),
            rejected_vps: AddressSet::new(),
            changed_keys: Vec::new(),
            gas_used: Vec::new(),
            have_error: false,
        };
        proof {
            assert(result@.changed_keys =~= Seq::<Seq<char>>::empty());
        }
        result
    }
}

impl VpsResult {
    /// Neither set holds an address twice.
    pub open spec fn wf(&self) -> bool {
        self.accepted_vps.wf() && self.rejected_vps.wf()
    }

    /// The verifiers in the order in which their predicates accepted or
    /// rejected.
    pub open spec fn order(&self) -> VerdictOrder {
        VerdictOrder {
            accepted: self.accepted_vps.order(),
            rejected: self.rejected_vps.order(),
        }
    }

    /// The result in words.
    pub open spec fn text(&self) -> Seq<char> {
        vps_text(self@, self.order())
    }

    /// The result in words.
    pub fn to_string(&self) -> (text: String)
        ensures
            text@ == self.text(),
    {
        let mut text = String::from_str("Vps -> accepted: ");
        text.append(list_to_string(&self.accepted_vps.to_strings()).as_str());
        text.append(". rejected: ");
        text.append(list_to_string(&self.rejected_vps.to_strings()).as_str());
        text.append(", keys: ");
        text.append(list_to_string(&self.changed_keys).as_str());
        text.append(", gas_used: ");
        text.append(list_to_string(&numbers_to_strings(&self.gas_used)).as_str());
        text.append(", error: ");
        text.append(bool_to_string(self.have_error).as_str());
        text
    }

    /// A result with the given parts.
    pub fn new(
        accepted_vps: AddressSet,
        rejected_vps: AddressSet,
        changed_keys: Vec<String>,
        gas_used: Vec<u64>,
        have_error: bool,
    ) -> (result: VpsResult)
        ensures
            result.accepted_vps == accepted_vps,
            result.rejected_vps == rejected_vps,
            result.changed_keys == changed_keys,
            result.gas_used == gas_used,
            result.have_error == have_error,
    {
        VpsResult { accepted_vps, rejected_vps, changed_keys, gas_used, have_error }
    }
}

/// Take two results together: the sets are united, the keys and the gas
/// costs of the second follow those of the first, and an error in either is
/// an error.
pub fn merge_vp_results(a: VpsResult, b: VpsResult) -> (merged: VpsResult)
    requires
        a.wf(),
    ensures
        merged.wf(),
        merged@ == merge_views(a@, b@),
        merged.order() == merge_orders(a.order(), b.order()),
{
    let accepted_vps = a.accepted_vps.union(&b.accepted_vps);
    let rejected_vps = a.rejected_vps.union(&b.rejected_vps);
    let mut changed_keys = a.changed_keys;
    let mut more_keys = b.changed_keys;
    changed_keys.append(&mut more_keys);
    let mut gas_used = a.gas_used;
    let mut more_gas = b.gas_used;
    gas_used.append(&mut more_gas);
    let have_error = a.have_error || b.have_error;
    proof {
        assert(string_views(changed_keys@) =~= a@.changed_keys + b@.changed_keys);
    }
    VpsResult::new(accepted_vps, rejected_vps, changed_keys, gas_used, have_error)
}

/// Add to `result` what one predicate did: its gas, its keys, and its
/// verifier among the accepted or the rejected.
pub fn run_vp(result: VpsResult, job: &VpJob, outcome: Option<&VpOutcome>) -> (next: VpsResult)
    requires
        result.wf(),
    ensures
        next.wf(),
        next@ == run_vp_view(
            result@,
            job@,
            match outcome {
                Some(o) => Some(*o),
                None => None,
            },
        ),
        next.order() == run_vp_order(
            result.order(),
            job@,
            match outcome {
                Some(o) => Some(*o),
                None => None,
            },
        ),
{
    let mut next = result;
    let (verdict, gas): (VpVerdict, u64) = match outcome {
        Some(o) => {
            if job.vp.is_none() {
                (VpVerdict::HostError, 0)
            } else {
                let within: bool = match o.gas_meter.initial_gas.checked_add(o.gas_meter.vp_gas) {
                    Some(total) => total <= o.gas_meter.limit,
                    None => false,
                };
                if within {
                    (o.verdict, o.gas_meter.vp_gas)
                } else {
                    (VpVerdict::HostError, o.gas_meter.vp_gas)
                }
            }
        },
        None => (VpVerdict::HostError, 0),
    };
    next.gas_used.push(gas);
    let mut keys = clone_strings(&job.keys);
    let ghost before = next.changed_keys@;
    next.changed_keys.append(&mut keys);
    proof {
        assert(string_views(next.changed_keys@) =~= string_views(before) + job@.keys);
    }
    match verdict {
        VpVerdict::Accepted => {
            next.accepted_vps.insert(job.address.clone());
        },
        VpVerdict::Rejected => {
            next.rejected_vps.insert(job.address.clone());
        },
        VpVerdict::HostError => {
            next.rejected_vps.insert(job.address.clone());
            next.have_error = true;
        },
    }
    next
}

/// The result of all predicates, each run to its end.
pub fn run_vps_dry(jobs: &Vec<VpJob>, outcomes: &Vec<VpOutcome>) -> (result: VpsResult)
    ensures
        result.wf(),
        result@ == fold_vps(job_views(jobs@), outcomes@, jobs@.len()),
        result.order() == fold_order(job_views(jobs@), outcomes@, jobs@.len()),
{
    let mut result = VpsResult::default();
    let mut i: usize = 0;
    while i < jobs.len()
        invariant
            i <= jobs.len(),
            result.wf(),
            result@ == fold_vps(job_views(jobs@), outcomes@, i as nat),
            result.order() == fold_order(job_views(jobs@), outcomes@, i as nat),
        decreases jobs.len() - i,
    {
        let outcome = if i < outcomes.len() {
            Some(&outcomes[i])
        } else {
            None
        };
        result = run_vp(result, &jobs[i], outcome);
        i += 1;
    }
    result
}

/// The result of all predicates, each folded into a result of its own and
/// the results merged in the order of the jobs. Every predicate counts,
/// whatever the predicates before it decided.
pub fn run_vps(jobs: &Vec<VpJob>, outcomes: &Vec<VpOutcome>) -> (result: VpsResult)
    ensures
        result.wf(),
        result@ == fold_vps(job_views(jobs@), outcomes@, jobs@.len()),
        result.order() == fold_order(job_views(jobs@), outcomes@, jobs@.len()),
{
    let mut result = VpsResult::default();
    let mut i: usize = 0;
    while i < jobs.len()
        invariant
            i <= jobs.len(),
            result.wf(),
            result@ == fold_vps(job_views(jobs@), outcomes@, i as nat),
            result.order() == fold_order(job_views(jobs@), outcomes@, i as nat),
        decreases jobs.len() - i,
    {
        let outcome = if i < outcomes.len() {
            Some(&outcomes[i])
        } else {
            None
        };
        let ghost before = result@;
        let ghost before_order = result.order();
        let ghost job = jobs@[i as int]@;
        let ghost came = outcome_at(outcomes@, i as int);
        let single = run_vp(VpsResult::default(), &jobs[i], outcome);
        result = merge_vp_results(result, single);
        proof {
            let merged = merge_views(before, run_vp_view(empty_result(), job, came));
            let folded = run_vp_view(before, job, came);
            assert(merged.accepted =~= folded.accepted);
            assert(merged.rejected =~= folded.rejected);
            assert(merged.changed_keys =~= folded.changed_keys);
            assert(merged.gas_used =~= folded.gas_used);
            let single_order = run_vp_order(empty_order(), job, came);
            lemma_union_order_single(before_order.accepted, job.address);
            lemma_union_order_single(before_order.rejected, job.address);
            assert(insert_once(Seq::<AddressView>::empty(), job.address) =~= seq![job.address]);
            assert(union_order(before_order.accepted, Seq::<AddressView>::empty())
                == before_order.accepted);
            assert(union_order(before_order.rejected, Seq::<AddressView>::empty())
                == before_order.rejected);
        }
        i += 1;
    }
    result
}

/// No element is smaller than one that follows it.
pub open spec fn sorted_descending(s: Seq<u64>) -> bool {
    forall|i: int, j: int| 0 <= i <= j < s.len() ==> s[i] >= s[j]
}

/// The order in which gas costs are charged: larger ones first.
pub open spec fn gas_order() -> spec_fn(u64, u64) -> bool {
    |a: u64, b: u64| a >= b
}

/// The values from the largest to the smallest.
pub open spec fn descending(values: Seq<u64>) -> Seq<u64> {
    values.sort_by(gas_order())
}

/// The values from the largest to the smallest are the same values, and the
/// only way to put them in that order.
pub proof fn lemma_descending(values: Seq<u64>, sorted: Seq<u64>)
    requires
        sorted_descending(sorted),
        sorted.to_multiset() == values.to_multiset(),
    ensures
        sorted == descending(values),
        sorted.len() == values.len(),
{
    assert(total_ordering(gas_order())) by {
        assert(reflexive(gas_order()));
        assert(antisymmetric(gas_order()));
        assert(transitive(gas_order()));
        assert(strongly_connected(gas_order()));
    }
    values.lemma_sort_by_ensures(gas_order());
    assert(sorted_by(sorted, gas_order()));
    lemma_sorted_unique(sorted, descending(values), gas_order());
    values.to_multiset_ensures();
    sorted.to_multiset_ensures();
}

/// The values from the largest to the smallest.
pub fn sort_descending(values: &Vec<u64>) -> (sorted: Vec<u64>)
    ensures
        sorted_descending(sorted@),
        sorted@.to_multiset() == values@.to_multiset(),
        sorted@.len() == values@.len(),
        sorted@ == descending(values@),
{
    let mut sorted: Vec<u64> = Vec::new();
    let mut i: usize = 0;
    proof {
        assert(values@.take(0) =~= sorted@);
    }
    while i < values.len()
        invariant
            i <= values.len(),
            sorted@.len() == i,
            sorted_descending(sorted@),
            sorted@.to_multiset() == values@.take(i as int).to_multiset(),
        decreases values.len() - i,
    {
        let value: u64 = values[i];
        let mut at: usize = 0;
        while at < sorted.len() && sorted[at] >= value
            invariant
                at <= sorted.len(),
                forall|k: int| 0 <= k < at ==> sorted@[k] >= value,
            decreases sorted.len() - at,
        {
            at += 1;
        }
        let ghost before = sorted@;
        sorted.insert(at, value);
        proof {
            to_multiset_insert(before, at as int, value);
            assert(values@.take(i + 1) =~= values@.take(i as int).push(value));
            to_multiset_build(values@.take(i as int), value);
            assert forall|a: int, b: int| 0 <= a <= b < sorted@.len() implies sorted@[a]
                >= sorted@[b] by {
                let a0 = if a < at { a } else { a - 1 };
                let b0 = if b < at { b } else { b - 1 };
                if a != at && b != at {
                    assert(sorted@[a] == before[a0] && sorted@[b] == before[b0]);
                } else if a == at && b != at {
                    assert(sorted@[b] == before[b0]);
                    assert(before[at as int] < value);
                    assert(before[at as int] >= before[b0]);
                } else if a != at && b == at {
                    assert(sorted@[a] == before[a0]);
                }
            }
        }
        i += 1;
    }
    proof {
        assert(values@.take(i as int) =~= values@);
        lemma_descending(values@, sorted@);
    }
    sorted
}

} // verus!
