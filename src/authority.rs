//! Authority list derivation: every distinct reporting address becomes one
//! node whose proposal weight is the number of times it was reported.

use vstd::prelude::*;

verus! {

/// An authority as the consensus engine sees it.
#[derive(Clone, Debug)]
pub struct Node {
    pub address: Vec<u8>,
    pub proposal_weight: u32,
    pub vote_weight: u32,
}

/// Number of times `a` occurs in `s`.
pub open spec fn occurrences(s: Seq<Seq<u8>>, a: Seq<u8>) -> nat
    decreases s.len(),
{
    if s.len() == 0 {
        0
    } else {
        occurrences(s.drop_last(), a) + if s.last() == a { 1nat } else { 0nat }
    }
}

/// Sum of the proposal weights of a node list.
pub open spec fn total_proposal_weight(s: Seq<Node>) -> int
    decreases s.len(),
{
    if s.len() == 0 {
        0
    } else {
        total_proposal_weight(s.drop_last()) + s.last().proposal_weight
    }
}

/// No address occurs twice in the list.
pub open spec fn distinct_addresses(s: Seq<Node>) -> bool {
    forall|i: int, j: int|
        0 <= i < s.len() && 0 <= j < s.len() && i != j ==> s[i].address@ != s[j].address@
}

/// The list is the authority list derived from the reports `reports`: one
/// node per distinct reported address, weighted by its number of reports.
pub open spec fn is_authority_list_of(list: Seq<Node>, reports: Seq<Seq<u8>>) -> bool {
    &&& distinct_addresses(list)
    &&& forall|i: int|
        0 <= i < list.len() ==> {
            &&& #[trigger] list[i].proposal_weight == occurrences(reports, list[i].address@)
            &&& list[i].vote_weight == 1
            &&& reports.contains(list[i].address@)
        }
    &&& forall|k: int|
        0 <= k < reports.len() ==> exists|i: int|
            0 <= i < list.len() && #[trigger] list[i].address@ == #[trigger] reports[k]
}

proof fn lemma_occurrences_positive(s: Seq<Seq<u8>>, k: int)
    requires
        0 <= k < s.len(),
    ensures
        occurrences(s, s[k]) >= 1,
    decreases s.len(),
{
    if k < s.len() - 1 {
        lemma_occurrences_positive(s.drop_last(), k);
    }
}

proof fn lemma_occurrences_bounded(s: Seq<Seq<u8>>, a: Seq<u8>)
    ensures
        occurrences(s, a) <= s.len(),
    decreases s.len(),
{
    if s.len() > 0 {
        lemma_occurrences_bounded(s.drop_last(), a);
    }
}

proof fn lemma_occurrences_absent(s: Seq<Seq<u8>>, a: Seq<u8>)
    requires
        !s.contains(a),
    ensures
        occurrences(s, a) == 0,
    decreases s.len(),
{
    if s.len() > 0 {
        assert(!s.drop_last().contains(a)) by {
            if s.drop_last().contains(a) {
                let j = choose|j: int| 0 <= j < s.drop_last().len() && s.drop_last()[j] == a;
                assert(s[j] == a);
            }
        }
        lemma_occurrences_absent(s.drop_last(), a);
    }
}

proof fn lemma_total_push(s: Seq<Node>, n: Node)
    ensures
        total_proposal_weight(s.push(n)) == total_proposal_weight(s) + n.proposal_weight,
{
    assert(s.push(n).drop_last() =~= s);
}

proof fn lemma_total_update(s: Seq<Node>, i: int, n: Node)
    requires
        0 <= i < s.len(),
    ensures
        total_proposal_weight(s.update(i, n)) == total_proposal_weight(s) - s[i].proposal_weight
            + n.proposal_weight,
    decreases s.len(),
{
    if i == s.len() - 1 {
        assert(s.update(i, n).drop_last() =~= s.drop_last());
    } else {
        assert(s.update(i, n).drop_last() =~= s.drop_last().update(i, n));
        lemma_total_update(s.drop_last(), i, n);
    }
}

proof fn lemma_occurrences_push(s: Seq<Seq<u8>>, a: Seq<u8>, b: Seq<u8>)
    ensures
        occurrences(s.push(a), b) == occurrences(s, b) + if a == b { 1nat } else { 0nat },
{
    assert(s.push(a).drop_last() =~= s);
}

proof fn lemma_contains_push(s: Seq<Seq<u8>>, a: Seq<u8>, b: Seq<u8>)
    requires
        s.contains(b),
    ensures
        s.push(a).contains(b),
{
    let m = choose|m: int| 0 <= m < s.len() && s[m] == b;
    assert(s.push(a)[m] == b);
}

/// Counting one more report of an address already in the list.
proof fn lemma_step_known(list: Seq<Node>, prev: Seq<Seq<u8>>, a: Seq<u8>, f: int, node: Node)
    requires
        is_authority_list_of(list, prev),
        0 <= f < list.len(),
        list[f].address@ == a,
        node.address@ == a,
        node.proposal_weight == list[f].proposal_weight + 1,
        node.vote_weight == 1,
    ensures
        is_authority_list_of(list.update(f, node), prev.push(a)),
        total_proposal_weight(list.update(f, node)) == total_proposal_weight(list) + 1,
{
    let nl = list.update(f, node);
    let cur = prev.push(a);
    lemma_total_update(list, f, node);
    assert forall|j: int| 0 <= j < nl.len() implies {
        &&& #[trigger] nl[j].proposal_weight == occurrences(cur, nl[j].address@)
        &&& nl[j].vote_weight == 1
        &&& cur.contains(nl[j].address@)
    } by {
        assert(list[j].proposal_weight == occurrences(prev, list[j].address@));
        lemma_occurrences_push(prev, a, nl[j].address@);
        lemma_contains_push(prev, a, list[j].address@);
        if j != f {
            assert(list[j].address@ != list[f].address@);
        }
    }
    assert forall|q: int| 0 <= q < cur.len() implies exists|j: int|
        0 <= j < nl.len() && #[trigger] nl[j].address@ == #[trigger] cur[q] by {
        if q < prev.len() {
            assert(cur[q] == prev[q]);
            let j = choose|j: int| 0 <= j < list.len() && #[trigger] list[j].address@ == prev[q];
            assert(nl[j].address@ == cur[q]);
        } else {
            assert(nl[f].address@ == cur[q]);
        }
    }
}

/// The first report of an address appends a node of weight one.
proof fn lemma_step_new(list: Seq<Node>, prev: Seq<Seq<u8>>, a: Seq<u8>, node: Node)
    requires
        is_authority_list_of(list, prev),
        forall|j: int| 0 <= j < list.len() ==> list[j].address@ != a,
        node.address@ == a,
        node.proposal_weight == 1,
        node.vote_weight == 1,
    ensures
        is_authority_list_of(list.push(node), prev.push(a)),
        total_proposal_weight(list.push(node)) == total_proposal_weight(list) + 1,
{
    let nl = list.push(node);
    let cur = prev.push(a);
    lemma_total_push(list, node);
    assert(!prev.contains(a)) by {
        if prev.contains(a) {
            let m = choose|m: int| 0 <= m < prev.len() && prev[m] == a;
            let j = choose|j: int| 0 <= j < list.len() && #[trigger] list[j].address@ == prev[m];
        }
    }
    lemma_occurrences_absent(prev, a);
    assert forall|j: int| 0 <= j < nl.len() implies {
        &&& #[trigger] nl[j].proposal_weight == occurrences(cur, nl[j].address@)
        &&& nl[j].vote_weight == 1
        &&& cur.contains(nl[j].address@)
    } by {
        lemma_occurrences_push(prev, a, nl[j].address@);
        if j < list.len() {
            assert(list[j].proposal_weight == occurrences(prev, list[j].address@));
            lemma_contains_push(prev, a, list[j].address@);
        } else {
            assert(cur[prev.len() as int] == a);
        }
    }
    assert forall|q: int| 0 <= q < cur.len() implies exists|j: int|
        0 <= j < nl.len() && #[trigger] nl[j].address@ == #[trigger] cur[q] by {
        if q < prev.len() {
            assert(cur[q] == prev[q]);
            let j = choose|j: int| 0 <= j < list.len() && #[trigger] list[j].address@ == prev[q];
            assert(nl[j].address@ == cur[q]);
        } else {
            assert(nl[list.len() as int].address@ == cur[q]);
        }
    }
}

/// Whether two byte strings are equal.
pub fn bytes_equal(a: &[u8], b: &[u8]) -> (r: bool)
    ensures
        r == (a@ == b@),
{
    if a.len() != b.len() {
        return false;
    }
    let mut i: usize = 0;
    while i < a.len()
        invariant
            a.len() == b.len(),
            0 <= i <= a.len(),
            forall|j: int| 0 <= j < i ==> a@[j] == b@[j],
        decreases a.len() - i,
    {
        if a[i] != b[i] {
            return false;
        }
        i = i + 1;
    }
    assert(a@ =~= b@);
    true
}

/// Copies a byte string.
pub fn copy_bytes(a: &[u8]) -> (r: Vec<u8>)
    ensures
        r@ == a@,
{
    let mut r: Vec<u8> = Vec::with_capacity(a.len());
    let mut i: usize = 0;
    while i < a.len()
        invariant
            0 <= i <= a.len(),
            r@ == a@.take(i as int),
        decreases a.len() - i,
    {
        r.push(a[i]);
        i = i + 1;
        assert(r@ =~= a@.take(i as int));
    }
    assert(a@.take(a.len() as int) =~= a@);
    r
}

/// Position of the node with address `a`, if the list holds one.
pub fn find_address(list: &Vec<Node>, a: &[u8]) -> (r: Option<usize>)
    ensures
        r is None ==> forall|j: int| 0 <= j < list.len() ==> list@[j].address@ != a@,
        r matches Some(f) ==> f < list.len() && list@[f as int].address@ == a@,
{
    let mut i: usize = 0;
    while i < list.len()
        invariant
            0 <= i <= list.len(),
            forall|j: int| 0 <= j < i ==> list@[j].address@ != a@,
        decreases list.len() - i,
    {
        if bytes_equal(&list[i].address, a) {
            return Some(i);
        }
        i = i + 1;
    }
    None
}

/// Derives the authority list from the addresses reported for a height.
/// Each distinct address appears once, in order of its first report, with
/// a proposal weight equal to its number of reports and a vote weight of 1;
/// the proposal weights add up to the number of reports.
pub fn derive_authority_list(reports: &Vec<Vec<u8>>) -> (list: Vec<Node>)
    requires
        reports.len() <= u32::MAX,
    ensures
        is_authority_list_of(list@, reports@.map_values(|r: Vec<u8>| r@)),
        total_proposal_weight(list@) == reports.len(),
{
    let ghost rs = reports@.map_values(|r: Vec<u8>| r@);
    let mut list: Vec<Node> = Vec::new();
    let mut k: usize = 0;
    while k < reports.len()
        invariant
            0 <= k <= reports.len(),
            reports.len() <= u32::MAX,
            rs == reports@.map_values(|r: Vec<u8>| r@),
            is_authority_list_of(list@, rs.take(k as int)),
            total_proposal_weight(list@) == k,
        decreases reports.len() - k,
    {
        let ghost prev = rs.take(k as int);
        let report = &reports[k];
        assert(rs.take(k as int + 1) =~= prev.push(report@));
        let found = find_address(&list, report);
        let ghost old_list = list@;
        match found {
            Some(f) => {
                proof {
                    assert(old_list[f as int].proposal_weight == occurrences(prev, report@));
                    lemma_occurrences_bounded(prev, report@);
                }
                let w = list[f].proposal_weight + 1;
                let node = Node { address: copy_bytes(report), proposal_weight: w, vote_weight: 1 };
                list.set(f, node);
                proof {
                    lemma_step_known(old_list, prev, report@, f as int, node);
                }
            },
            None => {
                let node = Node { address: copy_bytes(report), proposal_weight: 1, vote_weight: 1 };
                list.push(node);
                proof {
                    lemma_step_new(old_list, prev, report@, node);
                }
            },
        }
        k = k + 1;
    }
    assert(rs.take(reports.len() as int) =~= rs);
    list
}

} // verus!
