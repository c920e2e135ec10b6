//! What the library knows of a pull request.

use vstd::prelude::*;

use crate::text::{copy_names, is_text, joined, opt_view, same_text, views};

verus! {

/// Where a pull request stands.
#[derive(Debug, Clone, Copy, PartialEq, Eq, Structural)]
pub enum PrState {
    Open,
    Closed,
    Merged,
    /// A state that the forge reports and that has no variant of its own.
    Unknown,
}

impl PrState {
    /// Whether the pull request can no longer be merged: it is closed or merged.
    pub open spec fn terminal(self) -> bool {
        self is Closed || self is Merged
    }

    /// The state that the forge calls `name`.
    pub open spec fn named(name: Seq<char>) -> PrState {
        if name == "OPEN"@ {
            PrState::Open
        } else if name == "CLOSED"@ {
            PrState::Closed
        } else if name == "MERGED"@ {
            PrState::Merged
        } else {
            PrState::Unknown
        }
    }

    /// Reads the name that the forge gives a state.
    pub fn from_name(name: &str) -> (res: PrState)
        ensures
            res == PrState::named(name@),
            res is Open <==> name@ == "OPEN"@,
            res is Closed <==> name@ == "CLOSED"@,
            res is Merged <==> name@ == "MERGED"@,
    {
        proof {
            state_names_differ();
        }
        if is_text(name, "OPEN") {
            PrState::Open
        } else if is_text(name, "CLOSED") {
            PrState::Closed
        } else if is_text(name, "MERGED") {
            PrState::Merged
        } else {
            PrState::Unknown
        }
    }

    /// Whether the pull request is closed or merged.
    pub fn is_terminal(&self) -> (res: bool)
        ensures
            res == self.terminal(),
            res <==> (*self is Closed || *self is Merged),
    {
        match self {
            PrState::Closed => true,
            PrState::Merged => true,
            PrState::Open => false,
            PrState::Unknown => false,
        }
    }
}

/// A pull request, as the forge lists it.
#[derive(Debug, PartialEq, Eq)]
pub struct PrInfo {
    pub number: u32,
    /// Name of the branch that the pull request was opened from.
    pub head_ref_name: String,
    /// Full commit id of the pushed head; empty where it is not known.
    pub head_ref_oid: String,
    pub state: PrState,
    pub is_draft: bool,
    pub merge_state_status: Option<String>,
    pub labels: Vec<String>,
}

/// The fields of a [`PrInfo`] that decisions rest on.
pub struct PrView {
    pub number: u32,
    pub head_ref_name: Seq<char>,
    pub head_ref_oid: Seq<char>,
    pub state: PrState,
}

impl View for PrInfo {
    type V = PrView;

    open spec fn view(&self) -> PrView {
        PrView {
            number: self.number,
            head_ref_name: self.head_ref_name@,
            head_ref_oid: self.head_ref_oid@,
            state: self.state,
        }
    }
}

impl Clone for PrInfo {
    fn clone(&self) -> (res: Self)
        ensures
            res@ == self@,
            res.number == self.number,
            res.head_ref_name@ == self.head_ref_name@,
            res.head_ref_oid@ == self.head_ref_oid@,
            res.state == self.state,
            res.is_draft == self.is_draft,
            opt_view(res.merge_state_status) == opt_view(self.merge_state_status),
            views(res.labels@) == views(self.labels@),
    {
        PrInfo {
            number: self.number,
            head_ref_name: self.head_ref_name.clone(),
            head_ref_oid: self.head_ref_oid.clone(),
            state: self.state,
            is_draft: self.is_draft,
            merge_state_status: match &self.merge_state_status {
                Some(status) => Some(status.clone()),
                None => None,
            },
            labels: copy_names(&self.labels),
        }
    }
}

/// The first pull request of `prs` whose head branch is `branch`.
pub open spec fn first_pr(prs: Seq<PrView>, branch: Seq<char>) -> Option<PrView>
    decreases prs.len(),
{
    if prs.len() == 0 {
        None
    } else if prs[0].head_ref_name == branch {
        Some(prs[0])
    } else {
        first_pr(prs.drop_first(), branch)
    }
}

/// Finds the first pull request whose head branch is `branch`.
pub fn find_pr<'a>(prs: &'a Vec<PrInfo>, branch: &String) -> (res: Option<&'a PrInfo>)
    ensures
        match res {
            Some(pr) => first_pr(views(prs@), branch@) == Some(pr@) && exists|i: int|
                {
                    &&& 0 <= i < prs@.len()
                    &&& #[trigger] prs@[i] == *pr
                    &&& pr.head_ref_name@ == branch@
                    &&& forall|j: int|
                        0 <= j < i ==> (#[trigger] prs@[j]).head_ref_name@ != branch@
                },
            None => first_pr(views(prs@), branch@) is None && forall|i: int|
                0 <= i < prs@.len() ==> (#[trigger] prs@[i]).head_ref_name@ != branch@,
        },
{
    assert(views(prs@).skip(0) =~= views(prs@));
    for i in 0..prs.len()
        invariant
            first_pr(views(prs@), branch@) == first_pr(views(prs@).skip(i as int), branch@),
            forall|j: int| 0 <= j < i ==> (#[trigger] prs@[j]).head_ref_name@ != branch@,
    {
        if same_text(&prs[i].head_ref_name, branch) {
            return Some(&prs[i]);
        }
        assert(views(prs@).skip(i as int).drop_first() =~= views(prs@).skip(i + 1));
    }
    None
}

/// The search term that asks for one branch.
pub open spec fn head_term(branch: Seq<char>) -> Seq<char> {
    "head:"@ + branch
}

/// The search terms that ask for these branches, in order.
pub open spec fn head_terms(branches: Seq<Seq<char>>) -> Seq<Seq<char>> {
    Seq::new(branches.len(), |i: int| head_term(branches[i]))
}

/// The search text that asks for the pull requests of all these branches at
/// once.
pub fn head_search(branches: &Vec<String>) -> (res: String)
    ensures
        res@ == joined(head_terms(views(branches@)), " "@),
{
    let mut terms: Vec<String> = Vec::new();
    for i in 0..branches.len()
        invariant
            views(terms@) =~= head_terms(views(branches@)).take(i as int),
    {
        let term: String = "head:".to_owned().concat(branches[i].as_str());
        proof {
            crate::text::lemma_views_push(terms@, term);
        }
        terms.push(term);
    }
    assert(head_terms(views(branches@)).take(branches@.len() as int) =~= head_terms(
        views(branches@),
    ));
    crate::text::join(&terms, " ")
}

/// What [`find_pr`] finds is one of the listed pull requests, and its head is
/// the branch that was asked for.
pub proof fn found_pr_is_listed(prs: Seq<PrView>, branch: Seq<char>)
    ensures
        match first_pr(prs, branch) {
            Some(pr) => prs.contains(pr) && pr.head_ref_name == branch,
            None => forall|i: int| 0 <= i < prs.len() ==> (#[trigger] prs[i]).head_ref_name != branch,
        },
    decreases prs.len(),
{
    if prs.len() > 0 {
        let rest = prs.drop_first();
        if prs[0].head_ref_name != branch {
            found_pr_is_listed(rest, branch);
            if let Some(pr) = first_pr(rest, branch) {
                let k = choose|k: int| 0 <= k < rest.len() && rest[k] == pr;
                assert(prs[k + 1] == pr);
            } else {
                assert forall|i: int| 0 <= i < prs.len() implies (#[trigger] prs[i]).head_ref_name
                    != branch by {
                    if i > 0 {
                        assert(rest[i - 1] == prs[i]);
                    }
                }
            }
        }
    }
}

proof fn state_names_differ()
    ensures
        "OPEN"@ != "CLOSED"@,
        "OPEN"@ != "MERGED"@,
        "CLOSED"@ != "MERGED"@,
{
    reveal_strlit("OPEN");
    reveal_strlit("CLOSED");
    reveal_strlit("MERGED");
    assert("CLOSED"@[0] == 'C');
    assert("MERGED"@[0] == 'M');
}

/// A state is read from its name: each of the three names gives its own state, and
/// any other text gives none of them.
pub proof fn states_have_names(name: Seq<char>)
    ensures
        PrState::named(name) is Open <==> name == "OPEN"@,
        PrState::named(name) is Closed <==> name == "CLOSED"@,
        PrState::named(name) is Merged <==> name == "MERGED"@,
{
    state_names_differ();
}

/// A pull request has landed exactly if it is closed or merged.
pub proof fn landed_states(state: PrState)
    ensures
        state.terminal() <==> (state is Closed || state is Merged),
{
}

/// The view of a pull request holds each field under its own name.
pub proof fn pr_views(pr: PrInfo)
    ensures
        pr@.number == pr.number,
        pr@.head_ref_name == pr.head_ref_name@,
        pr@.head_ref_oid == pr.head_ref_oid@,
        pr@.state == pr.state,
{
}

/// Of several pull requests of a branch the first listed one counts: if the one at
/// `i` is of that branch and none before it is, it is the one that is found.
pub proof fn found_pr_is_the_first(prs: Seq<PrView>, branch: Seq<char>, i: int)
    requires
        0 <= i < prs.len(),
        prs[i].head_ref_name == branch,
        forall|j: int| 0 <= j < i ==> (#[trigger] prs[j]).head_ref_name != branch,
    ensures
        first_pr(prs, branch) == Some(prs[i]),
    decreases i,
{
    if i > 0 {
        let rest = prs.drop_first();
        assert(prs[0].head_ref_name != branch);
        assert forall|j: int| 0 <= j < i - 1 implies (#[trigger] rest[j]).head_ref_name
            != branch by {
            assert(rest[j] == prs[j + 1]);
        }
        found_pr_is_the_first(rest, branch, i - 1);
    }
}

/// A pull request of a branch is found if one is listed at all.
pub proof fn listed_pr_is_found(prs: Seq<PrView>, branch: Seq<char>, i: int)
    requires
        0 <= i < prs.len(),
        prs[i].head_ref_name == branch,
    ensures
        first_pr(prs, branch) is Some,
{
    found_pr_is_listed(prs, branch);
}

/// The search asks for the branches one by one: a single branch gives its own term,
/// and each further one adds a space and its term.
pub proof fn search_names_every_branch(branches: Seq<Seq<char>>, branch: Seq<char>)
    ensures
        joined(head_terms(Seq::empty()), " "@).len() == 0,
        joined(head_terms(seq![branch]), " "@) == "head:"@ + branch,
        branches.len() > 0 ==> joined(head_terms(branches.push(branch)), " "@) == joined(
            head_terms(branches),
            " "@,
        ) + " head:"@ + branch,
{
    let sep = " "@;
    let term = "head:"@ + branch;
    crate::text::joining_adds_at_the_end(head_terms(branches), term, sep);
    assert(head_terms(Seq::<Seq<char>>::empty()) =~= Seq::<Seq<char>>::empty());
    assert(head_terms(seq![branch]) =~= seq![term]);
    assert(head_terms(branches.push(branch)) =~= head_terms(branches).push(term));
    reveal_strlit(" ");
    reveal_strlit("head:");
    reveal_strlit(" head:");
    assert(" "@ + "head:"@ =~= " head:"@);
    if branches.len() > 0 {
        assert(joined(head_terms(branches), sep) + sep + term =~= joined(head_terms(branches), sep)
            + " head:"@ + branch);
    }
}

} // verus!
