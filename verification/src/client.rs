//! What is said to the RPC node and to the signature database, and what is
//! made of their answers.
//!
//! Nothing here touches the network. The caller sends the requests built
//! here, one lookup for every selector and all of them at once, and hands
//! back what came of each.

use crate::selectors::{texts_of, SelectorSet};
use crate::signature::Signature;
use vstd::prelude::*;

verus! {

/// Where the signature database is asked for a digest; the digest follows.
pub const LOOKUP_URL_HEAD: &'static str = "https://api.etherface.io/v1/signatures/hash/all/";

/// What follows the digest in a lookup: the first page of the answer.
pub const LOOKUP_URL_TAIL: &'static str = "/1";

/// The JSON-RPC request for the code of a contract, up to the address.
pub const CODE_REQUEST_HEAD: &'static str =
    "{\"jsonrpc\":\"2.0\",\"method\":\"eth_getCode\",\"params\":[\"";

/// The JSON-RPC request for the code of a contract, from the address on.
pub const CODE_REQUEST_TAIL: &'static str = "\",\"latest\"],\"id\":1}";

/// Why a request came to nothing.
#[derive(Debug, Clone, PartialEq)]
pub enum ClientError {
    /// The request could not be sent or its answer not be received; the
    /// transport's own words are given.
    ReqwestError(String),
    /// The answer is not the JSON that was expected; the parser's own
    /// words are given.
    SerdeError(String),
}

/// One entry of an answer of the signature database.
#[derive(Debug, Clone, PartialEq, Default)]
pub struct SignatureItem {
    /// The digest of the signature, in hexadecimal.
    pub hash: String,
    /// The signature as a human writes it.
    pub text: String,
}

/// An answer of the signature database: the entries that match, the most
/// referenced first.
#[derive(Debug, Clone, PartialEq)]
pub struct SignatureResponse {
    /// The entries.
    pub items: Vec<SignatureItem>,
}

/// The answer of an RPC node to a request for code.
#[derive(Debug, Clone, PartialEq)]
pub struct GetCodeResponse {
    /// The code as hexadecimal text.
    pub result: String,
}

/// Which of the candidates of a selector go into the result.
#[derive(Debug, Clone, Copy, PartialEq, Eq)]
pub enum AggregationPolicy {
    /// The highest-ranked candidate of each selector only.
    FirstMatch,
    /// Every candidate of each selector.
    AllMatches,
}

/// What came of the lookup of one selector.
#[derive(Debug, Clone, PartialEq)]
pub enum ResolutionOutcome {
    /// The database knows candidates; the best comes first.
    Found(Vec<Signature>),
    /// The database knows none.
    NotFound,
    /// The lookup itself failed.
    TransportFailure(ClientError),
}

/// The address at which the database is asked for `selector`.
pub open spec fn lookup_url(selector: Seq<char>) -> Seq<char> {
    LOOKUP_URL_HEAD@ + selector + LOOKUP_URL_TAIL@
}

/// The JSON-RPC request body that asks for the latest code at `address`.
pub open spec fn code_request(address: Seq<char>) -> Seq<char> {
    CODE_REQUEST_HEAD@ + address + CODE_REQUEST_TAIL@
}

/// `found` holds, in order, the signatures that `items` stand for.
pub open spec fn candidates_stand_for(found: Seq<Signature>, items: Seq<SignatureItem>) -> bool {
    &&& found.len() == items.len()
    &&& forall|i: int| 0 <= i < found.len() ==> (#[trigger] found[i]).stands_for(items[i])
}

/// What one outcome adds to the result under `policy`.
pub open spec fn contribution(outcome: ResolutionOutcome, policy: AggregationPolicy) -> Seq<
    Signature,
> {
    match outcome {
        ResolutionOutcome::Found(candidates) => match policy {
            AggregationPolicy::FirstMatch => if candidates@.len() > 0 {
                seq![candidates@[0]]
            } else {
                Seq::empty()
            },
            AggregationPolicy::AllMatches => candidates@,
        },
        _ => Seq::empty(),
    }
}

/// The result for `outcomes` under `policy`: the contributions of the
/// outcomes one after the other, in the order of the outcomes.
pub open spec fn aggregate(outcomes: Seq<ResolutionOutcome>, policy: AggregationPolicy) -> Seq<
    Signature,
>
    decreases outcomes.len(),
{
    if outcomes.len() == 0 {
        Seq::empty()
    } else {
        aggregate(outcomes.drop_last(), policy) + contribution(outcomes.last(), policy)
    }
}

/// The failure of the first outcome that is one, if any is.
pub open spec fn first_failure(outcomes: Seq<ResolutionOutcome>) -> Option<ClientError>
    decreases outcomes.len(),
{
    if outcomes.len() == 0 {
        None
    } else {
        match first_failure(outcomes.drop_last()) {
            Some(why) => Some(why),
            None => match outcomes.last() {
                ResolutionOutcome::TransportFailure(why) => Some(why),
                _ => None,
            },
        }
    }
}

/// The number of candidates that the outcomes hold between them.
pub open spec fn candidate_count(outcomes: Seq<ResolutionOutcome>) -> nat
    decreases outcomes.len(),
{
    if outcomes.len() == 0 {
        0
    } else {
        candidate_count(outcomes.drop_last()) + match outcomes.last() {
            ResolutionOutcome::Found(candidates) => candidates@.len(),
            _ => 0,
        }
    }
}

impl ClientError {
    /// A copy that is equal to the error.
    pub fn duplicate(&self) -> (r: ClientError)
        ensures
            r == *self,
    {
        match self {
            ClientError::ReqwestError(words) => ClientError::ReqwestError(words.clone()),
            ClientError::SerdeError(words) => ClientError::SerdeError(words.clone()),
        }
    }
}

/// The address at which the database is asked for `selector`.
pub fn signature_url(selector: &str) -> (url: String)
    ensures
        url@ == lookup_url(selector@),
{
    let mut url = String::from_str(LOOKUP_URL_HEAD);
    url.append(selector);
    url.append(LOOKUP_URL_TAIL);
    url
}

/// The addresses to ask for `selectors`: one for each member, in the order
/// of the members.
pub fn signature_urls(selectors: &SelectorSet) -> (urls: Vec<String>)
    ensures
        urls@.len() == selectors@.len(),
        urls@.len() == selectors.ordered().len(),
        forall|i: int| 0 <= i < urls@.len() ==> (#[trigger] urls@[i])@ == lookup_url(selectors.ordered()[i]),
{
    let members = selectors.to_vec();
    let n = selectors.len();
    let mut urls: Vec<String> = Vec::new();
    let mut i: usize = 0;
    while i < members.len()
        invariant
            i <= members@.len(),
            members@.len() == n,
            texts_of(members@) == selectors.ordered(),
            urls@.len() == i,
            forall|k: int| 0 <= k < i ==> (#[trigger] urls@[k])@ == lookup_url(selectors.ordered()[k]),
        decreases members@.len() - i,
    {
        assert(texts_of(members@)[i as int] == members@[i as int]@);
        urls.push(signature_url(members[i].as_str()));
        i += 1;
    }
    urls
}

/// The JSON-RPC request body that asks a node for the latest code at
/// `address`.
pub fn get_code_request(address: &str) -> (body: String)
    ensures
        body@ == code_request(address@),
{
    let mut body = String::from_str(CODE_REQUEST_HEAD);
    body.append(address);
    body.append(CODE_REQUEST_TAIL);
    body
}

/// What the body of a reply to one lookup amounts to, once a parser has
/// tried it: a body that reads as an answer is that answer, and a body that
/// does not is no answer at all, whatever the parser objected to. It is no
/// failure of the lookup.
pub fn answer_of(parsed: Result<SignatureResponse, ClientError>) -> (r: Option<SignatureResponse>)
    ensures
        r == match parsed {
            Ok(answer) => Some(answer),
            Err(_) => None::<SignatureResponse>,
        },
{
    match parsed {
        Ok(answer) => Some(answer),
        Err(_) => None,
    }
}

/// What a reply to one lookup amounts to.
///
/// A failed request is a failure. A body that could not be read as an
/// answer, and an answer without entries, both mean that the database knows
/// no candidate. Else the entries are the candidates, in their order.
pub fn outcome_of(reply: Result<Option<SignatureResponse>, ClientError>) -> (outcome:
    ResolutionOutcome)
    ensures
        match reply {
            Err(why) => outcome == ResolutionOutcome::TransportFailure(why),
            Ok(None) => outcome == ResolutionOutcome::NotFound,
            Ok(Some(answer)) => if answer.items@.len() == 0 {
                outcome == ResolutionOutcome::NotFound
            } else {
                outcome matches ResolutionOutcome::Found(found) && candidates_stand_for(
                    found@,
                    answer.items@,
                )
            },
        },
{
    match reply {
        Err(why) => ResolutionOutcome::TransportFailure(why),
        Ok(None) => ResolutionOutcome::NotFound,
        Ok(Some(answer)) => {
            if answer.items.len() == 0 {
                ResolutionOutcome::NotFound
            } else {
                let mut found: Vec<Signature> = Vec::new();
                let mut i: usize = 0;
                while i < answer.items.len()
                    invariant
                        i <= answer.items@.len(),
                        found@.len() == i,
                        forall|k: int|
                            0 <= k < i ==> (#[trigger] found@[k]).stands_for(answer.items@[k]),
                    decreases answer.items@.len() - i,
                {
                    found.push(Signature::from(&answer.items[i]));
                    i += 1;
                }
                ResolutionOutcome::Found(found)
            }
        },
    }
}

/// Adds to `result` what `outcome` contributes under `policy`.
fn add_contribution(
    result: &mut Vec<Signature>,
    outcome: &ResolutionOutcome,
    policy: AggregationPolicy,
)
    ensures
        final(result)@ == old(result)@ + contribution(*outcome, policy),
{
    match outcome {
        ResolutionOutcome::Found(candidates) => match policy {
            AggregationPolicy::FirstMatch => {
                if candidates.len() > 0 {
                    result.push(candidates[0].duplicate());
                    assert(result@ =~= old(result)@ + seq![candidates@[0]]);
                } else {
                    assert(result@ =~= old(result)@ + Seq::<Signature>::empty());
                }
            },
            AggregationPolicy::AllMatches => {
                let mut i: usize = 0;
                assert(result@ =~= old(result)@ + candidates@.take(0));
                while i < candidates.len()
                    invariant
                        i <= candidates@.len(),
                        result@ == old(result)@ + candidates@.take(i as int),
                    decreases candidates@.len() - i,
                {
                    result.push(candidates[i].duplicate());
                    assert(candidates@.take(i + 1) =~= candidates@.take(i as int).push(
                        candidates@[i as int],
                    ));
                    i += 1;
                    assert(result@ =~= old(result)@ + candidates@.take(i as int));
                }
                assert(candidates@.take(i as int) =~= candidates@);
            },
        },
        _ => {
            assert(result@ =~= old(result)@ + Seq::<Signature>::empty());
        },
    }
}

/// A failure among the first outcomes is the failure of the whole.
proof fn lemma_failure_stays(outcomes: Seq<ResolutionOutcome>, k: int)
    requires
        0 <= k <= outcomes.len(),
        first_failure(outcomes.take(k)) is Some,
    ensures
        first_failure(outcomes) == first_failure(outcomes.take(k)),
    decreases outcomes.len() - k,
{
    if k == outcomes.len() {
        assert(outcomes.take(k) =~= outcomes);
    } else {
        assert(outcomes.take(k + 1).drop_last() =~= outcomes.take(k));
        lemma_failure_stays(outcomes, k + 1);
    }
}

/// Makes one result of the outcomes of a batch of lookups.
///
/// The batch stands or falls as a whole. Where any lookup failed, the
/// first failure in the order of `outcomes` is returned and nothing else.
/// Otherwise each outcome with candidates contributes, in the order of
/// `outcomes`: its best candidate under `FirstMatch`, all its candidates
/// under `AllMatches`. A selector that the database does not know
/// contributes nothing and is no failure.
pub fn resolve(outcomes: &[ResolutionOutcome], policy: AggregationPolicy) -> (r: Result<
    Vec<Signature>,
    ClientError,
>)
    ensures
        match first_failure(outcomes@) {
            Some(why) => r == Err::<Vec<Signature>, ClientError>(why),
            None => r matches Ok(found) && found@ == aggregate(outcomes@, policy),
        },
{
    let mut found: Vec<Signature> = Vec::new();
    let mut i: usize = 0;
    while i < outcomes.len()
        invariant
            i <= outcomes@.len(),
            first_failure(outcomes@.take(i as int)) is None,
            found@ == aggregate(outcomes@.take(i as int), policy),
        decreases outcomes@.len() - i,
    {
        assert(outcomes@.take(i + 1).drop_last() =~= outcomes@.take(i as int));
        match &outcomes[i] {
            ResolutionOutcome::TransportFailure(why) => {
                proof {
                    lemma_failure_stays(outcomes@, i + 1);
                }
                return Err(why.duplicate());
            },
            _ => {},
        }
        add_contribution(&mut found, &outcomes[i], policy);
        i += 1;
    }
    assert(outcomes@.take(i as int) =~= outcomes@);
    Ok(found)
}

/// Whether any outcome is a failure, and which failure comes first.
pub proof fn lemma_first_failure(outcomes: Seq<ResolutionOutcome>)
    ensures
        first_failure(outcomes) is None <==> forall|i: int|
            0 <= i < outcomes.len() ==> !((#[trigger] outcomes[i]) is TransportFailure),
        first_failure(outcomes) matches Some(why) ==> exists|i: int|
            0 <= i < outcomes.len() && #[trigger] outcomes[i] == ResolutionOutcome::TransportFailure(
                why,
            ) && forall|j: int| 0 <= j < i ==> !((#[trigger] outcomes[j]) is TransportFailure),
    decreases outcomes.len(),
{
    if outcomes.len() > 0 {
        let before = outcomes.drop_last();
        lemma_first_failure(before);
        assert(forall|i: int| 0 <= i < before.len() ==> before[i] == outcomes[i]);
        match first_failure(before) {
            Some(why) => {
                let i = choose|i: int|
                    0 <= i < before.len() && #[trigger] before[i]
                        == ResolutionOutcome::TransportFailure(why) && forall|j: int|
                        0 <= j < i ==> !((#[trigger] before[j]) is TransportFailure);
                assert(outcomes[i] == ResolutionOutcome::TransportFailure(why));
                assert(forall|j: int| 0 <= j < i ==> before[j] == outcomes[j]);
            },
            None => {
                if let ResolutionOutcome::TransportFailure(why) = outcomes.last() {
                    let i = outcomes.len() - 1;
                    assert(outcomes[i] == ResolutionOutcome::TransportFailure(why));
                } else {
                    assert forall|i: int| 0 <= i < outcomes.len() implies !((
                    #[trigger] outcomes[i]) is TransportFailure) by {
                        if i < before.len() {
                            assert(before[i] == outcomes[i]);
                        }
                    }
                }
            },
        }
    }
}

/// The result holds nothing but candidates of the outcomes.
pub proof fn lemma_aggregate_holds_candidates(
    outcomes: Seq<ResolutionOutcome>,
    policy: AggregationPolicy,
    k: int,
)
    requires
        0 <= k < aggregate(outcomes, policy).len(),
    ensures
        exists|i: int, j: int|
            0 <= i < outcomes.len() && (#[trigger] outcomes[i]) is Found && 0 <= j
                < outcomes[i]->Found_0@.len() && aggregate(outcomes, policy)[k]
                == #[trigger] outcomes[i]->Found_0@[j],
    decreases outcomes.len(),
{
    let before = outcomes.drop_last();
    let earlier = aggregate(before, policy);
    if k < earlier.len() {
        lemma_aggregate_holds_candidates(before, policy, k);
        let (i, j) = choose|i: int, j: int|
            0 <= i < before.len() && (#[trigger] before[i]) is Found && 0 <= j
                < before[i]->Found_0@.len() && earlier[k] == #[trigger] before[i]->Found_0@[j];
        assert(outcomes[i] == before[i]);
        assert(aggregate(outcomes, policy)[k] == outcomes[i]->Found_0@[j]);
    } else {
        let i = outcomes.len() - 1;
        let j = k - earlier.len();
        assert(outcomes[i] is Found);
        assert(aggregate(outcomes, policy)[k] == outcomes[i]->Found_0@[j]);
    }
}

/// The entries of the answer that a reply holds; none where it holds no
/// answer.
pub open spec fn entries_of(reply: Result<Option<SignatureResponse>, ClientError>) -> Seq<
    SignatureItem,
> {
    match reply {
        Ok(Some(answer)) => answer.items@,
        _ => Seq::empty(),
    }
}

/// Whatever the policy, every signature of the result stands for an entry
/// of an answer, where the outcomes are what the replies amount to.
pub proof fn lemma_resolved_signatures_are_entries(
    replies: Seq<Result<Option<SignatureResponse>, ClientError>>,
    outcomes: Seq<ResolutionOutcome>,
    policy: AggregationPolicy,
    k: int,
)
    requires
        outcomes.len() == replies.len(),
        forall|i: int|
            0 <= i < replies.len() ==> call_ensures(outcome_of, (#[trigger] replies[i],), outcomes[i]),
        0 <= k < aggregate(outcomes, policy).len(),
    ensures
        exists|i: int, j: int|
            0 <= i < replies.len() && 0 <= j < entries_of(replies[i]).len() && aggregate(
                outcomes,
                policy,
            )[k].stands_for(#[trigger] entries_of(replies[i])[j]),
{
    lemma_aggregate_holds_candidates(outcomes, policy, k);
    let (i, j) = choose|i: int, j: int|
        0 <= i < outcomes.len() && (#[trigger] outcomes[i]) is Found && 0 <= j
            < outcomes[i]->Found_0@.len() && aggregate(outcomes, policy)[k]
            == #[trigger] outcomes[i]->Found_0@[j];
    assert(call_ensures(outcome_of, (replies[i],), outcomes[i]));
    assert(outcomes[i]->Found_0@[j].stands_for(entries_of(replies[i])[j]));
}

/// Under `FirstMatch` the result holds at most one signature for each
/// outcome.
pub proof fn lemma_first_match_at_most_one_each(outcomes: Seq<ResolutionOutcome>)
    ensures
        aggregate(outcomes, AggregationPolicy::FirstMatch).len() <= outcomes.len(),
    decreases outcomes.len(),
{
    if outcomes.len() > 0 {
        lemma_first_match_at_most_one_each(outcomes.drop_last());
    }
}

/// Under `AllMatches` the result holds every candidate of every outcome.
pub proof fn lemma_all_matches_keeps_every_candidate(outcomes: Seq<ResolutionOutcome>)
    ensures
        aggregate(outcomes, AggregationPolicy::AllMatches).len() == candidate_count(outcomes),
    decreases outcomes.len(),
{
    if outcomes.len() > 0 {
        lemma_all_matches_keeps_every_candidate(outcomes.drop_last());
    }
}

/// Where every lookup succeeded, with candidates or without, `resolve`
/// succeeds: under `FirstMatch` with no more signatures than lookups, under
/// `AllMatches` with as many signatures as the lookups returned candidates.
pub proof fn lemma_resolve_counts(
    outcomes: &[ResolutionOutcome],
    policy: AggregationPolicy,
    r: Result<Vec<Signature>, ClientError>,
)
    requires
        forall|i: int| 0 <= i < outcomes@.len() ==> !((#[trigger] outcomes@[i]) is TransportFailure),
        call_ensures(resolve, (outcomes, policy), r),
    ensures
        r is Ok,
        policy == AggregationPolicy::FirstMatch ==> r.unwrap()@.len() <= outcomes@.len(),
        policy == AggregationPolicy::AllMatches ==> r.unwrap()@.len() == candidate_count(outcomes@),
{
    lemma_first_failure(outcomes@);
    lemma_first_match_at_most_one_each(outcomes@);
    lemma_all_matches_keeps_every_candidate(outcomes@);
}

/// One failed lookup fails the batch, however many others succeeded:
/// `resolve` returns the first failure and no signature.
pub proof fn lemma_one_failure_fails_the_batch(
    outcomes: &[ResolutionOutcome],
    policy: AggregationPolicy,
    i: int,
    r: Result<Vec<Signature>, ClientError>,
)
    requires
        0 <= i < outcomes@.len(),
        outcomes@[i] is TransportFailure,
        forall|j: int| 0 <= j < i ==> !((#[trigger] outcomes@[j]) is TransportFailure),
        call_ensures(resolve, (outcomes, policy), r),
    ensures
        r == Err::<Vec<Signature>, ClientError>(outcomes@[i]->TransportFailure_0),
{
    lemma_first_failure(outcomes@);
    match first_failure(outcomes@) {
        Some(why) => {
            let k = choose|k: int|
                0 <= k < outcomes@.len() && #[trigger] outcomes@[k]
                    == ResolutionOutcome::TransportFailure(why) && forall|j: int|
                    0 <= j < k ==> !((#[trigger] outcomes@[j]) is TransportFailure);
            assert(k == i);
        },
        None => {},
    }
}

} // verus!
