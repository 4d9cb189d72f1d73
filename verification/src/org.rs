//! Accounts of an organization and the tags that classify them.

use aws_sdk_organizations::operation::list_accounts::ListAccountsError;
use aws_sdk_organizations::operation::list_tags_for_resource::ListTagsForResourceError;
use aws_smithy_runtime_api::client::orchestrator::HttpResponse;
use aws_smithy_runtime_api::client::result::SdkError;
use vstd::prelude::*;

verus! {

/// `SdkError` of aws_smithy_runtime_api: why a call to the service failed.
/// Nothing is claimed of its content; a value is carried as it came.
#[verifier::external_type_specification]
#[verifier::external_body]
#[verifier::reject_recursive_types(E)]
#[verifier::reject_recursive_types(R)]
pub struct ExSdkError<E, R>(SdkError<E, R>);

/// `Response` of aws_smithy_runtime_api: the raw HTTP response inside a
/// failure. Nothing is claimed of its content.
#[verifier::external_type_specification]
#[verifier::external_body]
#[verifier::reject_recursive_types(B)]
pub struct ExResponse<B>(aws_smithy_runtime_api::http::Response<B>);

/// `SdkBody` of aws_smithy_types: the body of a raw HTTP response. Nothing is
/// claimed of its content.
#[verifier::external_type_specification]
#[verifier::external_body]
pub struct ExSdkBody(aws_smithy_types::body::SdkBody);

/// `ListAccountsError` of aws_sdk_organizations: the service's refusal of a
/// request for a page of accounts. Nothing is claimed of its content.
#[verifier::external_type_specification]
#[verifier::external_body]
pub struct ExListAccountsError(ListAccountsError);

/// `ListTagsForResourceError` of aws_sdk_organizations: the service's refusal
/// of a request for the tags of a resource. Nothing is claimed of its content.
#[verifier::external_type_specification]
#[verifier::external_body]
pub struct ExListTagsForResourceError(ListTagsForResourceError);

/// Why discovery failed.
#[derive(Debug)]
pub enum OrgError {
    /// The service failed to list a page of accounts.
    ListAccounts(SdkError<ListAccountsError, HttpResponse>),
    /// The service failed to list the tags of an account.
    ListTags(SdkError<ListTagsForResourceError, HttpResponse>),
    /// A page of the listing came without its collection of accounts.
    BadAccounts,
    /// An account of the listing came without its identifier.
    BadAccountId,
    /// The answer to a request for tags came without its collection of tags.
    BadTags,
}

impl From<SdkError<ListAccountsError, HttpResponse>> for OrgError {
    /// The failure of the listing with this cause.
    fn from(cause: SdkError<ListAccountsError, HttpResponse>) -> (error: OrgError) {
        OrgError::ListAccounts(cause)
    }
}

impl vstd::std_specs::convert::FromSpecImpl<SdkError<ListAccountsError, HttpResponse>> for OrgError {
    open spec fn obeys_from_spec() -> bool {
        true
    }

    open spec fn from_spec(cause: SdkError<ListAccountsError, HttpResponse>) -> OrgError {
        OrgError::ListAccounts(cause)
    }
}

impl From<SdkError<ListTagsForResourceError, HttpResponse>> for OrgError {
    /// The failure of a request for tags with this cause.
    fn from(cause: SdkError<ListTagsForResourceError, HttpResponse>) -> (error: OrgError) {
        OrgError::ListTags(cause)
    }
}

impl vstd::std_specs::convert::FromSpecImpl<SdkError<ListTagsForResourceError, HttpResponse>> for OrgError {
    open spec fn obeys_from_spec() -> bool {
        true
    }

    open spec fn from_spec(cause: SdkError<ListTagsForResourceError, HttpResponse>) -> OrgError {
        OrgError::ListTags(cause)
    }
}

/// A key-value label that the management account attached to an account.
#[derive(Debug, Clone, PartialEq, Eq)]
pub struct Tag {
    pub key: String,
    pub value: String,
}

/// The mathematical content of a [`Tag`].
pub struct TagView {
    pub key: Seq<char>,
    pub value: Seq<char>,
}

impl View for Tag {
    type V = TagView;

    open spec fn view(&self) -> TagView {
        TagView { key: self.key@, value: self.value@ }
    }
}

/// An AWS account of the organization.
#[derive(Debug, Clone, PartialEq, Eq)]
pub struct Account {
    /// The AWS account ID.
    pub id: String,
    /// The environment, from the tag `catapult.controlant.com/environment`.
    pub environment: Option<String>,
    /// The tier, from the tag `catapult.controlant.com/tier`.
    pub tier: Option<String>,
    /// The domain the account belongs to, from the tag `catapult.controlant.com/domain`.
    pub domain: Option<String>,
}

/// The mathematical content of an [`Account`].
pub struct AccountView {
    pub id: Seq<char>,
    pub environment: Option<Seq<char>>,
    pub tier: Option<Seq<char>>,
    pub domain: Option<Seq<char>>,
}

impl AccountView {
    /// Whether the account has what every account has: an identifier that is
    /// not empty.
    pub open spec fn well_formed(self) -> bool {
        self.id.len() > 0
    }
}

/// The content of an optional string.
pub open spec fn text(s: Option<String>) -> Option<Seq<char>> {
    match s {
        Some(s) => Some(s@),
        None => None,
    }
}

impl View for Account {
    type V = AccountView;

    open spec fn view(&self) -> AccountView {
        AccountView {
            id: self.id@,
            environment: text(self.environment),
            tier: text(self.tier),
            domain: text(self.domain),
        }
    }
}

/// The key of the tag that names an account's environment.
pub open spec fn environment_key() -> Seq<char> {
    "catapult.controlant.com/environment"@
}

/// The key of the tag that names an account's domain.
pub open spec fn domain_key() -> Seq<char> {
    "catapult.controlant.com/domain"@
}

/// The key of the tag that names an account's tier.
pub open spec fn tier_key() -> Seq<char> {
    "catapult.controlant.com/tier"@
}

/// The value that `tags` give to `key`: that of the last tag with this key,
/// if there is one.
pub open spec fn tag_value(tags: Seq<TagView>, key: Seq<char>) -> Option<Seq<char>>
    decreases tags.len(),
{
    if tags.len() == 0 {
        None
    } else if tags.last().key == key {
        Some(tags.last().value)
    } else {
        tag_value(tags.drop_last(), key)
    }
}

/// The account that the tags `tags` describe under the identifier `id`.
pub open spec fn account_of(id: Seq<char>, tags: Seq<TagView>) -> AccountView {
    AccountView {
        id,
        environment: tag_value(tags, environment_key()),
        tier: tag_value(tags, tier_key()),
        domain: tag_value(tags, domain_key()),
    }
}

/// The views of the tags in `tags`, in order.
pub open spec fn tag_views(tags: Seq<Tag>) -> Seq<TagView> {
    tags.map_values(|t: Tag| t@)
}

/// The contents of the strings in `strings`, in order.
pub open spec fn texts(strings: Seq<String>) -> Seq<Seq<char>> {
    strings.map_values(|s: String| s@)
}

/// The views of the accounts in `accounts`, in order.
pub open spec fn account_views(accounts: Seq<Account>) -> Seq<AccountView> {
    accounts.map_values(|a: Account| a@)
}

/// The three tag keys are pairwise different.
pub proof fn lemma_keys_differ()
    ensures
        environment_key() != domain_key(),
        environment_key() != tier_key(),
        domain_key() != tier_key(),
{
    reveal_strlit("catapult.controlant.com/environment");
    reveal_strlit("catapult.controlant.com/domain");
    reveal_strlit("catapult.controlant.com/tier");
    assert(environment_key().len() == 35);
    assert(domain_key().len() == 30);
    assert(tier_key().len() == 28);
}

/// Builds the account `id` from the tags attached to it. A tag with another
/// key than the three known ones is passed over.
pub fn classify(id: String, tags: Vec<Tag>) -> (account: Account)
    ensures
        account@ == account_of(id@, tag_views(tags@)),
{
    let mut environment: Option<String> = None;
    let mut domain: Option<String> = None;
    let mut tier: Option<String> = None;
    proof {
        lemma_keys_differ();
    }
    let for_environment = "catapult.controlant.com/environment".to_owned();
    let for_domain = "catapult.controlant.com/domain".to_owned();
    let for_tier = "catapult.controlant.com/tier".to_owned();
    let n: usize = tags.len();
    let mut i: usize = 0;
    while i < n
        invariant
            i <= n,
            n == tags@.len(),
            text(environment) == tag_value(tag_views(tags@).take(i as int), environment_key()),
            text(domain) == tag_value(tag_views(tags@).take(i as int), domain_key()),
            text(tier) == tag_value(tag_views(tags@).take(i as int), tier_key()),
            for_environment@ == environment_key(),
            for_domain@ == domain_key(),
            for_tier@ == tier_key(),
            environment_key() != domain_key(),
            environment_key() != tier_key(),
            domain_key() != tier_key(),
        decreases n - i,
    {
        let tag = &tags[i];
        proof {
            let before = tag_views(tags@).take(i as int);
            let after = tag_views(tags@).take(i + 1);
            assert(after.drop_last() == before);
            assert(after.last() == tag@);
        }
        if tag.key == for_environment {
            environment = Some(tag.value.clone());
        } else if tag.key == for_domain {
            domain = Some(tag.value.clone());
        } else if tag.key == for_tier {
            tier = Some(tag.value.clone());
        }
        i = i + 1;
    }
    assert(tag_views(tags@).take(n as int) == tag_views(tags@));
    Account { id, environment, tier, domain }
}

/// The answer of the service to a request for the tags of an account.
#[derive(Debug)]
pub struct TagsOutput {
    /// The tags of the account, where the answer holds the collection.
    pub tags: Option<Vec<Tag>>,
}

impl View for TagsOutput {
    type V = Option<Seq<TagView>>;

    open spec fn view(&self) -> Option<Seq<TagView>> {
        match self.tags {
            Some(tags) => Some(tag_views(tags@)),
            None => None,
        }
    }
}

/// How a request for the tags of an account ended.
pub open spec fn tags_reply_view(
    reply: Result<TagsOutput, SdkError<ListTagsForResourceError, HttpResponse>>,
) -> Result<Option<Seq<TagView>>, SdkError<ListTagsForResourceError, HttpResponse>> {
    match reply {
        Ok(output) => Ok(output@),
        Err(cause) => Err(cause),
    }
}

/// What reading the account `id` yields, given how the request for its tags
/// ended: the failure of the request, the want of the collection of tags, or
/// the account that the tags describe.
pub open spec fn read_model(
    id: Seq<char>,
    reply: Result<Option<Seq<TagView>>, SdkError<ListTagsForResourceError, HttpResponse>>,
) -> Result<AccountView, OrgError> {
    match reply {
        Err(cause) => Err(OrgError::ListTags(cause)),
        Ok(None) => Err(OrgError::BadTags),
        Ok(Some(tags)) => Ok(account_of(id, tags)),
    }
}

/// The content of what reading an account yields.
pub open spec fn read_view(result: Result<Account, OrgError>) -> Result<AccountView, OrgError> {
    match result {
        Ok(account) => Ok(account@),
        Err(error) => Err(error),
    }
}

/// Reads the account `id` from the answer to the request for its tags.
pub fn read_account(
    id: String,
    reply: Result<TagsOutput, SdkError<ListTagsForResourceError, HttpResponse>>,
) -> (result: Result<Account, OrgError>)
    ensures
        read_view(result) == read_model(id@, tags_reply_view(reply)),
{
    match reply {
        Err(cause) => Err(OrgError::from(cause)),
        Ok(output) => match output.tags {
            None => Err(OrgError::BadTags),
            Some(tags) => Ok(classify(id, tags)),
        },
    }
}

/// One account as a page of the listing names it.
#[derive(Debug)]
pub struct ListedAccount {
    /// The identifier of the account, where the entry holds one.
    pub id: Option<String>,
}

impl View for ListedAccount {
    type V = Option<Seq<char>>;

    open spec fn view(&self) -> Option<Seq<char>> {
        text(self.id)
    }
}

/// One page of the listing of accounts, as the service answered it.
#[derive(Debug)]
pub struct AccountsOutput {
    /// The accounts of the page, where the answer holds the collection.
    pub accounts: Option<Vec<ListedAccount>>,
}

impl View for AccountsOutput {
    type V = Option<Seq<Option<Seq<char>>>>;

    open spec fn view(&self) -> Option<Seq<Option<Seq<char>>>> {
        match self.accounts {
            Some(entries) => Some(entries@.map_values(|e: ListedAccount| e@)),
            None => None,
        }
    }
}

/// The identifiers that a page of the listing names, in the order of the
/// page. A page without its collection of accounts names none, and neither
/// does a page with an entry that lacks its identifier.
pub open spec fn page_ids(page: Option<Seq<Option<Seq<char>>>>) -> Result<Seq<Seq<char>>, OrgError> {
    match page {
        None => Err(OrgError::BadAccounts),
        Some(entries) => if forall|i: int| 0 <= i < entries.len() ==> (#[trigger] entries[i]) is Some {
            Ok(Seq::new(entries.len(), |i: int| entries[i]->0))
        } else {
            Err(OrgError::BadAccountId)
        },
    }
}

/// The content of what a page of the listing yields.
pub open spec fn ids_view(result: Result<Vec<String>, OrgError>) -> Result<Seq<Seq<char>>, OrgError> {
    match result {
        Ok(ids) => Ok(texts(ids@)),
        Err(error) => Err(error),
    }
}

/// Extracts the identifiers of the accounts that a page of the listing names.
pub fn account_ids(page: AccountsOutput) -> (result: Result<Vec<String>, OrgError>)
    ensures
        ids_view(result) == page_ids(page@),
{
    match page.accounts {
        None => Err(OrgError::BadAccounts),
        Some(entries) => {
            let ghost views = entries@.map_values(|e: ListedAccount| e@);
            let mut ids: Vec<String> = Vec::new();
            let n: usize = entries.len();
            let mut i: usize = 0;
            while i < n
                invariant
                    i <= n,
                    n == entries@.len(),
                    views == entries@.map_values(|e: ListedAccount| e@),
                    page@ == Some(views),
                    ids@.len() == i,
                    forall|k: int| 0 <= k < i ==> (#[trigger] views[k]) is Some,
                    forall|k: int| 0 <= k < i ==> (#[trigger] ids@[k])@ == views[k]->0,
                decreases n - i,
            {
                match &entries[i].id {
                    None => {
                        assert(views[i as int] is None);
                        return Err(OrgError::BadAccountId);
                    },
                    Some(id) => {
                        assert(views[i as int] == Some(id@));
                        ids.push(id.clone());
                    },
                }
                i = i + 1;
            }
            assert(texts(ids@) =~= Seq::new(views.len(), |i: int| views[i]->0));
            Ok(ids)
        },
    }
}

/// What the caller reports to a discovery: the outcome of the work that the
/// discovery last asked for.
#[derive(Debug)]
pub enum Event {
    /// The listing of accounts answered with its next page, or failed to.
    Page(Result<AccountsOutput, SdkError<ListAccountsError, HttpResponse>>),
    /// The listing of accounts has no further page.
    EndOfListing,
    /// The request for the tags of the account named first has ended.
    Tags(String, Result<TagsOutput, SdkError<ListTagsForResourceError, HttpResponse>>),
}

/// The mathematical content of an [`Event`].
pub enum EventView {
    Page(Result<Option<Seq<Option<Seq<char>>>>, SdkError<ListAccountsError, HttpResponse>>),
    EndOfListing,
    Tags(Seq<char>, Result<Option<Seq<TagView>>, SdkError<ListTagsForResourceError, HttpResponse>>),
}

impl View for Event {
    type V = EventView;

    open spec fn view(&self) -> EventView {
        match *self {
            Event::Page(Ok(page)) => EventView::Page(Ok(page@)),
            Event::Page(Err(cause)) => EventView::Page(Err(cause)),
            Event::EndOfListing => EventView::EndOfListing,
            Event::Tags(id, reply) => EventView::Tags(id@, tags_reply_view(reply)),
        }
    }
}

/// What a discovery asks of its caller next.
#[derive(Debug)]
pub enum Action {
    /// Request the tags of each of these accounts, all at once, and ask the
    /// listing for its next page.
    Dispatch(Vec<String>),
    /// Wait for one of the requests for tags to end.
    Await,
    /// Stop: discovery has ended with this result.
    Return(Result<Vec<Account>, OrgError>),
    /// Nothing: the event does not belong to the phase that the discovery is
    /// in, and has changed nothing.
    Rejected,
}

/// The mathematical content of an [`Action`].
pub enum ActionView {
    Dispatch(Seq<Seq<char>>),
    Await,
    Return(Result<Seq<AccountView>, OrgError>),
    Rejected,
}

/// The content of the result of a discovery.
pub open spec fn result_view(result: Result<Vec<Account>, OrgError>) -> Result<Seq<AccountView>, OrgError> {
    match result {
        Ok(accounts) => Ok(account_views(accounts@)),
        Err(error) => Err(error),
    }
}

impl View for Action {
    type V = ActionView;

    open spec fn view(&self) -> ActionView {
        match *self {
            Action::Dispatch(ids) => ActionView::Dispatch(texts(ids@)),
            Action::Await => ActionView::Await,
            Action::Return(result) => ActionView::Return(result_view(result)),
            Action::Rejected => ActionView::Rejected,
        }
    }
}

/// Where a discovery stands.
#[derive(Debug, Clone, Copy, PartialEq, Eq)]
pub enum Phase {
    /// The pages of the listing are being fetched, one after the other.
    Listing,
    /// The listing is complete; requests for tags are still under way.
    Draining,
    /// The result has been handed out.
    Finished,
}

/// The mathematical content of a [`Discovery`].
pub struct DiscoveryView {
    /// Where the discovery stands.
    pub phase: Phase,
    /// The identifiers listed so far, in the order of the listing.
    pub listed: Seq<Seq<char>>,
    /// The accounts read so far, in the order in which their tags arrived.
    pub accounts: Seq<AccountView>,
}

impl DiscoveryView {
    /// A discovery that has not seen any event.
    pub open spec fn initial() -> DiscoveryView {
        DiscoveryView { phase: Phase::Listing, listed: Seq::empty(), accounts: Seq::empty() }
    }

    /// A discovery that has handed out its result.
    pub open spec fn finished() -> DiscoveryView {
        DiscoveryView { phase: Phase::Finished, listed: Seq::empty(), accounts: Seq::empty() }
    }

    /// The discovery after `event`, and what it asks of its caller then.
    ///
    /// While listing, a page that names its accounts adds them to those
    /// listed and has their tags requested; a page that failed, or came
    /// malformed, ends the discovery with the error. The end of the listing
    /// starts the draining, or ends the discovery where no account was
    /// listed. While draining, tags that arrive add the account they describe;
    /// with the last of them the discovery returns the accounts. Tags that
    /// failed to arrive, or came malformed, end the discovery with the error.
    pub open spec fn step(self, event: EventView) -> (DiscoveryView, ActionView) {
        match (self.phase, event) {
            (Phase::Listing, EventView::Page(Err(cause))) => (
                DiscoveryView::finished(),
                ActionView::Return(Err(OrgError::ListAccounts(cause))),
            ),
            (Phase::Listing, EventView::Page(Ok(page))) => match page_ids(page) {
                Err(error) => (DiscoveryView::finished(), ActionView::Return(Err(error))),
                Ok(ids) => (
                    DiscoveryView { listed: self.listed + ids, ..self },
                    ActionView::Dispatch(ids),
                ),
            },
            (Phase::Listing, EventView::EndOfListing) => if self.listed.len() == 0 {
                (DiscoveryView::finished(), ActionView::Return(Ok(self.accounts)))
            } else {
                (DiscoveryView { phase: Phase::Draining, ..self }, ActionView::Await)
            },
            (Phase::Draining, EventView::Tags(id, reply)) => match read_model(id, reply) {
                Err(error) => (DiscoveryView::finished(), ActionView::Return(Err(error))),
                Ok(account) => if self.accounts.len() + 1 == self.listed.len() {
                    (DiscoveryView::finished(), ActionView::Return(Ok(self.accounts.push(account))))
                } else {
                    (DiscoveryView { accounts: self.accounts.push(account), ..self }, ActionView::Await)
                },
            },
            _ => (self, ActionView::Rejected),
        }
    }
}

/// The decisions of one discovery: it is told what the service answered, and
/// says what to ask next.
#[derive(Debug)]
pub struct Discovery {
    phase: Phase,
    listed: Vec<String>,
    accounts: Vec<Account>,
}

impl View for Discovery {
    type V = DiscoveryView;

    closed spec fn view(&self) -> DiscoveryView {
        DiscoveryView {
            phase: self.phase,
            listed: texts(self.listed@),
            accounts: account_views(self.accounts@),
        }
    }
}

impl Discovery {
    /// A discovery at its start: the first page of the listing is to be
    /// fetched.
    pub fn new() -> (discovery: Discovery)
        ensures
            discovery@ == DiscoveryView::initial(),
    {
        let discovery = Discovery { phase: Phase::Listing, listed: Vec::new(), accounts: Vec::new() };
        assert(texts(discovery.listed@) =~= Seq::empty());
        assert(account_views(discovery.accounts@) =~= Seq::empty());
        discovery
    }

    fn finished() -> (discovery: Discovery)
        ensures
            discovery@ == DiscoveryView::finished(),
    {
        let discovery = Discovery { phase: Phase::Finished, listed: Vec::new(), accounts: Vec::new() };
        assert(texts(discovery.listed@) =~= Seq::empty());
        assert(account_views(discovery.accounts@) =~= Seq::empty());
        discovery
    }

    /// Where the discovery stands.
    pub fn phase(&self) -> (phase: Phase)
        ensures
            phase == self@.phase,
    {
        self.phase
    }

    /// Takes `event` in and says what to do next.
    pub fn step(self, event: Event) -> (next: (Discovery, Action))
        ensures
            (next.0@, next.1@) == self@.step(event@),
    {
        match self.phase {
            Phase::Listing => match event {
                Event::Page(Err(cause)) => (
                    Discovery::finished(),
                    Action::Return(Err(OrgError::from(cause))),
                ),
                Event::Page(Ok(page)) => match account_ids(page) {
                    Err(error) => (Discovery::finished(), Action::Return(Err(error))),
                    Ok(ids) => {
                        let mut listed = self.listed;
                        let n: usize = ids.len();
                        let mut i: usize = 0;
                        while i < n
                            invariant
                                i <= n,
                                n == ids@.len(),
                                texts(listed@) == texts(self.listed@) + texts(ids@).take(i as int),
                            decreases n - i,
                        {
                            let ghost before = listed@;
                            listed.push(ids[i].clone());
                            assert(texts(listed@) =~= texts(before).push(ids@[i as int]@));
                            assert(texts(ids@).take(i + 1) =~= texts(ids@).take(i as int).push(
                                ids@[i as int]@,
                            ));
                            i = i + 1;
                        }
                        assert(texts(ids@).take(n as int) == texts(ids@));
                        (
                            Discovery { phase: Phase::Listing, listed, accounts: self.accounts },
                            Action::Dispatch(ids),
                        )
                    },
                },
                Event::EndOfListing => if self.listed.len() == 0 {
                    (Discovery::finished(), Action::Return(Ok(self.accounts)))
                } else {
                    (
                        Discovery { phase: Phase::Draining, listed: self.listed, accounts: self.accounts },
                        Action::Await,
                    )
                },
                Event::Tags(_, _) => (self, Action::Rejected),
            },
            Phase::Draining => match event {
                Event::Tags(id, reply) => match read_account(id, reply) {
                    Err(error) => (Discovery::finished(), Action::Return(Err(error))),
                    Ok(account) => {
                        let mut accounts = self.accounts;
                        accounts.push(account);
                        assert(account_views(accounts@) == account_views(self.accounts@).push(account@));
                        if accounts.len() == self.listed.len() {
                            (Discovery::finished(), Action::Return(Ok(accounts)))
                        } else {
                            (
                                Discovery { phase: Phase::Draining, listed: self.listed, accounts },
                                Action::Await,
                            )
                        }
                    },
                },
                _ => (self, Action::Rejected),
            },
            Phase::Finished => (self, Action::Rejected),
        }
    }
}

/// The views of the events in `events`, in order.
pub open spec fn event_views(events: Seq<Event>) -> Seq<EventView> {
    events.map_values(|e: Event| e@)
}

/// The result that a discovery in the state `from` returns when it is told
/// `events` one after the other: that of the first event on which it stops.
/// It returns nothing where the events end before it stops.
pub open spec fn run(from: DiscoveryView, events: Seq<EventView>) -> Option<
    Result<Seq<AccountView>, OrgError>,
>
    decreases events.len(),
{
    if events.len() == 0 {
        None
    } else {
        match from.step(events.first()) {
            (_, ActionView::Return(result)) => Some(result),
            (next, _) => run(next, events.drop_first()),
        }
    }
}

/// The result of a discovery that is told `events` from its start.
pub open spec fn outcome(events: Seq<EventView>) -> Option<Result<Seq<AccountView>, OrgError>> {
    run(DiscoveryView::initial(), events)
}

/// The content of what a recorded exchange yields.
pub open spec fn outcome_view(result: Option<Result<Vec<Account>, OrgError>>) -> Option<
    Result<Seq<AccountView>, OrgError>,
> {
    match result {
        Some(result) => Some(result_view(result)),
        None => None,
    }
}

/// Discovers the accounts of the organization from a recorded exchange with
/// the service: `events` holds, in the order in which they came about, the
/// pages of the listing, its end, and the answers to the requests for tags.
/// Returns what a discovery returns on them, and `None` where the record ends
/// before the discovery does.
pub fn discover_accounts(events: Vec<Event>) -> (result: Option<Result<Vec<Account>, OrgError>>)
    ensures
        outcome_view(result) == outcome(event_views(events@)),
{
    let ghost all = event_views(events@);
    let mut discovery = Discovery::new();
    assert(all.skip(0) =~= all);
    for event in it: events
        invariant
            all == event_views(events@),
            run(discovery@, all.skip(it.index() as int)) == outcome(all),
    {
        proof {
            let rest = all.skip(it.index() as int);
            assert(rest.first() == event@);
            assert(rest.drop_first() == all.skip(it.index() + 1));
        }
        let (next, action) = discovery.step(event);
        match action {
            Action::Return(result) => {
                return Some(result);
            },
            _ => {},
        }
        discovery = next;
    }
    None
}

} // verus!
