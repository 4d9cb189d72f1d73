//! What holds of every discovery: theorems over the model of `org`.

use crate::org::{
    account_of, domain_key, environment_key, outcome, page_ids, run, tag_value, tier_key,
    AccountView, DiscoveryView, EventView, OrgError, Phase, TagView,
};
use aws_sdk_organizations::operation::list_accounts::ListAccountsError;
use aws_sdk_organizations::operation::list_tags_for_resource::ListTagsForResourceError;
use aws_smithy_runtime_api::client::orchestrator::HttpResponse;
use aws_smithy_runtime_api::client::result::SdkError;
use vstd::prelude::*;

verus! {

/// Tags of which none has the key `key` give it no value.
pub proof fn lemma_tag_value_absent(tags: Seq<TagView>, key: Seq<char>)
    requires
        forall|i: int| 0 <= i < tags.len() ==> (#[trigger] tags[i]).key != key,
    ensures
        tag_value(tags, key) is None,
    decreases tags.len(),
{
    if tags.len() > 0 {
        lemma_tag_value_absent(tags.drop_last(), key);
    }
}

/// The value that tags give to a key is that of the last tag with the key.
pub proof fn lemma_tag_value_last(tags: Seq<TagView>, key: Seq<char>, i: int)
    requires
        0 <= i < tags.len(),
        tags[i].key == key,
        forall|j: int| i < j < tags.len() ==> (#[trigger] tags[j]).key != key,
    ensures
        tag_value(tags, key) == Some(tags[i].value),
    decreases tags.len(),
{
    if i < tags.len() - 1 {
        lemma_tag_value_last(tags.drop_last(), key, i);
    }
}

/// Whether `key` is one of the three keys that classify an account.
pub open spec fn recognized(key: Seq<char>) -> bool {
    key == environment_key() || key == domain_key() || key == tier_key()
}

/// An account whose tags hold none of the three known keys has no
/// environment, no tier and no domain.
pub proof fn theorem_unrecognized_tags_leave_fields_empty(id: Seq<char>, tags: Seq<TagView>)
    requires
        forall|i: int| 0 <= i < tags.len() ==> !recognized((#[trigger] tags[i]).key),
    ensures
        account_of(id, tags) == (AccountView {
            id,
            environment: None,
            tier: None,
            domain: None,
        }),
{
    lemma_tag_value_absent(tags, environment_key());
    lemma_tag_value_absent(tags, tier_key());
    lemma_tag_value_absent(tags, domain_key());
}

/// A tag with another key than `key` has no part in the value of `key`.
pub proof fn lemma_tag_value_ignores(tags: Seq<TagView>, key: Seq<char>, i: int)
    requires
        0 <= i < tags.len(),
        tags[i].key != key,
    ensures
        tag_value(tags.remove(i), key) == tag_value(tags, key),
    decreases tags.len(),
{
    if i == tags.len() - 1 {
        assert(tags.remove(i) =~= tags.drop_last());
    } else {
        let shorter = tags.remove(i);
        assert(shorter.last() == tags.last());
        assert(shorter.drop_last() =~= tags.drop_last().remove(i));
        lemma_tag_value_ignores(tags.drop_last(), key, i);
    }
}

/// A tag with none of the three known keys is ignored: the account is the
/// same without it.
pub proof fn theorem_other_tags_are_ignored(id: Seq<char>, tags: Seq<TagView>, i: int)
    requires
        0 <= i < tags.len(),
        !recognized(tags[i].key),
    ensures
        account_of(id, tags.remove(i)) == account_of(id, tags),
{
    lemma_tag_value_ignores(tags, environment_key(), i);
    lemma_tag_value_ignores(tags, tier_key(), i);
    lemma_tag_value_ignores(tags, domain_key(), i);
}

/// Whether the tag at `i` is the last of `tags` with the key `key`.
pub open spec fn last_with_key(tags: Seq<TagView>, key: Seq<char>, i: int) -> bool {
    &&& 0 <= i < tags.len()
    &&& tags[i].key == key
    &&& forall|j: int| i < j < tags.len() ==> (#[trigger] tags[j]).key != key
}

/// An account whose tags hold all three known keys has the value of each as
/// its environment, its tier and its domain. Where a key occurs more than
/// once, the last tag with it counts.
pub proof fn theorem_recognized_tags_fill_fields(
    id: Seq<char>,
    tags: Seq<TagView>,
    e: int,
    t: int,
    d: int,
)
    requires
        last_with_key(tags, environment_key(), e),
        last_with_key(tags, tier_key(), t),
        last_with_key(tags, domain_key(), d),
    ensures
        account_of(id, tags) == (AccountView {
            id,
            environment: Some(tags[e].value),
            tier: Some(tags[t].value),
            domain: Some(tags[d].value),
        }),
{
    lemma_tag_value_last(tags, environment_key(), e);
    lemma_tag_value_last(tags, tier_key(), t);
    lemma_tag_value_last(tags, domain_key(), d);
}

/// The event of a page of the listing that names the accounts `ids`.
pub open spec fn page_event(ids: Seq<Seq<char>>) -> EventView {
    EventView::Page(Ok(Some(ids.map_values(|id: Seq<char>| Some(id)))))
}

/// The events of a listing whose pages name the accounts `pages`, page by
/// page, before its end.
pub open spec fn listing(pages: Seq<Seq<Seq<char>>>) -> Seq<EventView> {
    pages.map_values(|ids: Seq<Seq<char>>| page_event(ids))
}

/// All the accounts that the pages `pages` name, in the order of the listing.
pub open spec fn listed(pages: Seq<Seq<Seq<char>>>) -> Seq<Seq<char>>
    decreases pages.len(),
{
    if pages.len() == 0 {
        Seq::empty()
    } else {
        pages.first() + listed(pages.drop_first())
    }
}

/// The tags that the service answered for one account: its identifier, then
/// its tags.
pub type Answer = (Seq<char>, Seq<TagView>);

/// The event of the tags `answer` arriving.
pub open spec fn tags_event(answer: Answer) -> EventView {
    EventView::Tags(answer.0, Ok(Some(answer.1)))
}

/// The events of the tags `answers` arriving, in this order.
pub open spec fn arrivals(answers: Seq<Answer>) -> Seq<EventView> {
    answers.map_values(|answer: Answer| tags_event(answer))
}

/// The accounts that the tags `answers` describe, in the same order.
pub open spec fn accounts_of(answers: Seq<Answer>) -> Seq<AccountView> {
    answers.map_values(|answer: Answer| account_of(answer.0, answer.1))
}

/// The identifiers of the accounts that `answers` are for, in the same order.
pub open spec fn ids_of(answers: Seq<Answer>) -> Seq<Seq<char>> {
    answers.map_values(|answer: Answer| answer.0)
}

/// The identifiers of `accounts`, in the same order.
pub open spec fn account_ids_of(accounts: Seq<AccountView>) -> Seq<Seq<char>> {
    accounts.map_values(|account: AccountView| account.id)
}

/// The events of a whole exchange in which nothing fails: the pages `pages`
/// of the listing, its end, and the tags `answers` in the order of their
/// arrival.
pub open spec fn exchange(pages: Seq<Seq<Seq<char>>>, answers: Seq<Answer>) -> Seq<EventView> {
    listing(pages) + seq![EventView::EndOfListing] + arrivals(answers)
}

/// A page that names the accounts `ids` yields these identifiers.
proof fn lemma_page_event_ids(ids: Seq<Seq<char>>)
    ensures
        page_ids(Some(ids.map_values(|id: Seq<char>| Some(id)))) == Ok::<Seq<Seq<char>>, OrgError>(
            ids,
        ),
{
    let entries = ids.map_values(|id: Seq<char>| Some(id));
    assert(Seq::new(entries.len(), |i: int| entries[i]->0) =~= ids);
}

/// While listing, pages that name their accounts only add to those listed.
proof fn lemma_listing_adds(from: DiscoveryView, pages: Seq<Seq<Seq<char>>>, rest: Seq<EventView>)
    requires
        from.phase == Phase::Listing,
    ensures
        run(from, listing(pages) + rest) == run(
            DiscoveryView { listed: from.listed + listed(pages), ..from },
            rest,
        ),
    decreases pages.len(),
{
    if pages.len() == 0 {
        assert(listing(pages) + rest =~= rest);
        assert(from.listed + listed(pages) =~= from.listed);
    } else {
        let events = listing(pages) + rest;
        let next = DiscoveryView { listed: from.listed + pages.first(), ..from };
        lemma_page_event_ids(pages.first());
        assert(events.first() == page_event(pages.first()));
        assert(events.drop_first() =~= listing(pages.drop_first()) + rest);
        lemma_listing_adds(next, pages.drop_first(), rest);
        assert(next.listed + listed(pages.drop_first()) =~= from.listed + listed(pages));
    }
}

/// While draining, tags that arrive before the last only add the accounts
/// that they describe.
proof fn lemma_draining_adds(from: DiscoveryView, answers: Seq<Answer>, rest: Seq<EventView>)
    requires
        from.phase == Phase::Draining,
        from.accounts.len() + answers.len() < from.listed.len(),
    ensures
        run(from, arrivals(answers) + rest) == run(
            DiscoveryView { accounts: from.accounts + accounts_of(answers), ..from },
            rest,
        ),
    decreases answers.len(),
{
    if answers.len() == 0 {
        assert(arrivals(answers) + rest =~= rest);
        assert(from.accounts + accounts_of(answers) =~= from.accounts);
    } else {
        let events = arrivals(answers) + rest;
        let first = answers.first();
        let next = DiscoveryView {
            accounts: from.accounts.push(account_of(first.0, first.1)),
            ..from
        };
        assert(events.first() == tags_event(first));
        assert(events.drop_first() =~= arrivals(answers.drop_first()) + rest);
        lemma_draining_adds(next, answers.drop_first(), rest);
        assert(next.accounts + accounts_of(answers.drop_first()) =~= from.accounts + accounts_of(
            answers,
        ));
    }
}

/// With the last of the tags it waits for, a draining discovery returns the
/// accounts read, in the order in which their tags arrived.
proof fn lemma_draining_returns(from: DiscoveryView, answers: Seq<Answer>, rest: Seq<EventView>)
    requires
        from.phase == Phase::Draining,
        answers.len() > 0,
        from.accounts.len() + answers.len() == from.listed.len(),
    ensures
        run(from, arrivals(answers) + rest) == Some(
            Ok::<Seq<AccountView>, OrgError>(from.accounts + accounts_of(answers)),
        ),
{
    let before = answers.drop_last();
    let last = answers.last();
    let tail = seq![tags_event(last)] + rest;
    assert(arrivals(answers) + rest =~= arrivals(before) + tail);
    lemma_draining_adds(from, before, tail);
    let at = DiscoveryView { accounts: from.accounts + accounts_of(before), ..from };
    assert(tail.first() == tags_event(last));
    assert(at.accounts.push(account_of(last.0, last.1)) =~= from.accounts + accounts_of(answers));
}

/// A discovery in which nothing fails returns one account for each answer,
/// in the order of arrival, once the tags of every listed account have
/// arrived.
pub proof fn lemma_exchange_outcome(pages: Seq<Seq<Seq<char>>>, answers: Seq<Answer>)
    requires
        answers.len() == listed(pages).len(),
    ensures
        outcome(exchange(pages, answers)) == Some(
            Ok::<Seq<AccountView>, OrgError>(accounts_of(answers)),
        ),
{
    let start = DiscoveryView::initial();
    let tail = seq![EventView::EndOfListing] + arrivals(answers);
    assert(exchange(pages, answers) =~= listing(pages) + tail);
    lemma_listing_adds(start, pages, tail);
    let at = DiscoveryView { listed: start.listed + listed(pages), ..start };
    assert(at.listed =~= listed(pages));
    assert(tail.first() == EventView::EndOfListing);
    assert(tail.drop_first() =~= arrivals(answers));
    if answers.len() == 0 {
        assert(accounts_of(answers) =~= at.accounts);
    } else {
        let draining = DiscoveryView { phase: Phase::Draining, ..at };
        assert(arrivals(answers) =~= arrivals(answers) + Seq::<EventView>::empty());
        lemma_draining_returns(draining, answers, Seq::empty());
        assert(draining.accounts + accounts_of(answers) =~= accounts_of(answers));
    }
}

/// Where the listing names N accounts and the tags of each of them arrive,
/// in whatever order, discovery returns exactly N accounts: one for each
/// answer, under the identifier of the answer and with the fields that its
/// tags give, so that the identifiers returned are those listed, each as
/// often as the listing names it.
pub proof fn theorem_every_listed_account_is_returned(
    pages: Seq<Seq<Seq<char>>>,
    answers: Seq<Answer>,
)
    requires
        ids_of(answers).to_multiset() == listed(pages).to_multiset(),
    ensures
        outcome(exchange(pages, answers)) matches Some(Ok(accounts)) && {
            &&& accounts.len() == listed(pages).len()
            &&& accounts == accounts_of(answers)
            &&& account_ids_of(accounts).to_multiset() == listed(pages).to_multiset()
        },
{
    vstd::seq_lib::to_multiset_len(ids_of(answers));
    vstd::seq_lib::to_multiset_len(listed(pages));
    assert(ids_of(answers).len() == answers.len());
    lemma_exchange_outcome(pages, answers);
    assert(account_ids_of(accounts_of(answers)) =~= ids_of(answers));
}

/// Where no listed identifier is empty, every account that discovery returns
/// is well formed.
pub proof fn theorem_returned_accounts_are_well_formed(
    pages: Seq<Seq<Seq<char>>>,
    answers: Seq<Answer>,
)
    requires
        ids_of(answers).to_multiset() == listed(pages).to_multiset(),
        forall|i: int| 0 <= i < listed(pages).len() ==> (#[trigger] listed(pages)[i]).len() > 0,
    ensures
        outcome(exchange(pages, answers)) matches Some(Ok(accounts)) && forall|k: int|
            0 <= k < accounts.len() ==> (#[trigger] accounts[k]).well_formed(),
{
    theorem_every_listed_account_is_returned(pages, answers);
    let accounts = accounts_of(answers);
    assert forall|k: int| 0 <= k < accounts.len() implies (#[trigger] accounts[k]).well_formed() by {
        let id = answers[k].0;
        assert(ids_of(answers)[k] == id);
        assert(ids_of(answers).contains(id));
        vstd::seq_lib::to_multiset_contains(ids_of(answers), id);
        vstd::seq_lib::to_multiset_contains(listed(pages), id);
        assert(listed(pages).contains(id));
    }
}

/// Where a page of the listing fails after pages that named their accounts,
/// discovery returns the failure of the listing with its cause, and no
/// account, whatever follows.
pub proof fn theorem_failed_page_fails_discovery(
    pages: Seq<Seq<Seq<char>>>,
    cause: SdkError<ListAccountsError, HttpResponse>,
    rest: Seq<EventView>,
)
    ensures
        outcome(listing(pages) + seq![EventView::Page(Err(cause))] + rest) == Some(
            Err::<Seq<AccountView>, OrgError>(OrgError::ListAccounts(cause)),
        ),
{
    let start = DiscoveryView::initial();
    let tail = seq![EventView::Page(Err(cause))] + rest;
    assert(listing(pages) + seq![EventView::Page(Err(cause))] + rest =~= listing(pages) + tail);
    lemma_listing_adds(start, pages, tail);
    assert(tail.first() == EventView::Page(Err(cause)));
}

/// Where the request for the tags of a listed account fails, after a listing
/// that named its accounts and after tags that arrived, discovery returns the
/// failure of that request with its cause, whatever follows.
pub proof fn theorem_failed_tags_fail_discovery(
    pages: Seq<Seq<Seq<char>>>,
    arrived: Seq<Answer>,
    id: Seq<char>,
    cause: SdkError<ListTagsForResourceError, HttpResponse>,
    rest: Seq<EventView>,
)
    requires
        arrived.len() < listed(pages).len(),
    ensures
        outcome(
            exchange(pages, arrived) + seq![EventView::Tags(id, Err(cause))] + rest,
        ) == Some(Err::<Seq<AccountView>, OrgError>(OrgError::ListTags(cause))),
{
    let start = DiscoveryView::initial();
    let failure = seq![EventView::Tags(id, Err(cause))] + rest;
    let drain = arrivals(arrived) + failure;
    let tail = seq![EventView::EndOfListing] + drain;
    assert(exchange(pages, arrived) + seq![EventView::Tags(id, Err(cause))] + rest =~= listing(
        pages,
    ) + tail);
    lemma_listing_adds(start, pages, tail);
    let at = DiscoveryView { listed: start.listed + listed(pages), ..start };
    assert(at.listed =~= listed(pages));
    assert(tail.first() == EventView::EndOfListing);
    assert(tail.drop_first() =~= drain);
    let draining = DiscoveryView { phase: Phase::Draining, ..at };
    lemma_draining_adds(draining, arrived, failure);
    assert(failure.first() == EventView::Tags(id, Err(cause)));
}

/// Sequences with the same elements, each as often, still have the same
/// elements after one function was applied to each.
pub proof fn lemma_map_keeps_multiset<A, B>(a: Seq<A>, b: Seq<A>, f: spec_fn(A) -> B)
    requires
        a.to_multiset() == b.to_multiset(),
    ensures
        a.map_values(f).to_multiset() == b.map_values(f).to_multiset(),
    decreases a.len(),
{
    vstd::seq_lib::to_multiset_len(a);
    vstd::seq_lib::to_multiset_len(b);
    if a.len() == 0 {
        assert(a.map_values(f) =~= b.map_values(f));
    } else {
        let x = a.last();
        vstd::seq_lib::to_multiset_contains(a, x);
        vstd::seq_lib::to_multiset_contains(b, x);
        assert(a[a.len() - 1] == x);
        assert(a.contains(x));
        assert(b.contains(x));
        let j = choose|j: int| 0 <= j < b.len() && b[j] == x;
        let a0 = a.drop_last();
        let b0 = b.remove(j);
        vstd::seq_lib::to_multiset_remove(a, a.len() - 1);
        vstd::seq_lib::to_multiset_remove(b, j);
        assert(a.remove(a.len() - 1) =~= a0);
        lemma_map_keeps_multiset(a0, b0, f);
        vstd::seq_lib::to_multiset_build(a0.map_values(f), f(x));
        assert(a0.map_values(f).push(f(x)) =~= a.map_values(f));
        vstd::seq_lib::to_multiset_insert(b0.map_values(f), j, f(x));
        assert(b0.map_values(f).insert(j, f(x)) =~= b.map_values(f));
    }
}

/// Discovery repeats: against one listing and one set of answers, two
/// discoveries return the same accounts, each as often, though the answers
/// may arrive in another order the second time.
pub proof fn theorem_discovery_repeats(
    pages: Seq<Seq<Seq<char>>>,
    first: Seq<Answer>,
    second: Seq<Answer>,
)
    requires
        first.len() == listed(pages).len(),
        first.to_multiset() == second.to_multiset(),
    ensures
        outcome(exchange(pages, first)) matches Some(Ok(once)) && outcome(
            exchange(pages, second),
        ) matches Some(Ok(again)) && once.to_multiset() == again.to_multiset(),
{
    vstd::seq_lib::to_multiset_len(first);
    vstd::seq_lib::to_multiset_len(second);
    lemma_exchange_outcome(pages, first);
    lemma_exchange_outcome(pages, second);
    lemma_map_keeps_multiset(first, second, |answer: Answer| account_of(answer.0, answer.1));
}

} // verus!
