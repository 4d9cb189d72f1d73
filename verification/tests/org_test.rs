use aws_sdk_organizations::operation::list_accounts::ListAccountsError;
use aws_sdk_organizations::operation::list_tags_for_resource::ListTagsForResourceError;
use aws_smithy_runtime_api::client::orchestrator::HttpResponse;
use aws_smithy_runtime_api::client::result::SdkError;

use control_aws::org::{
    account_ids, classify, discover_accounts, read_account, Account, AccountsOutput, Action,
    Discovery, Event, ListedAccount, OrgError, Phase, Tag, TagsOutput,
};

const ENVIRONMENT: &str = "catapult.controlant.com/environment";
const DOMAIN: &str = "catapult.controlant.com/domain";
const TIER: &str = "catapult.controlant.com/tier";

fn tag(key: &str, value: &str) -> Tag {
    Tag { key: key.to_string(), value: value.to_string() }
}

fn page(ids: &[&str]) -> Event {
    Event::Page(Ok(AccountsOutput {
        accounts: Some(ids.iter().map(|id| ListedAccount { id: Some(id.to_string()) }).collect()),
    }))
}

fn tags(id: &str, tags: Vec<Tag>) -> Event {
    Event::Tags(id.to_string(), Ok(TagsOutput { tags: Some(tags) }))
}

fn bare(id: &str) -> Account {
    Account { id: id.to_string(), environment: None, tier: None, domain: None }
}

fn listing_failure() -> SdkError<ListAccountsError, HttpResponse> {
    SdkError::timeout_error("the listing took too long")
}

fn tags_failure() -> SdkError<ListTagsForResourceError, HttpResponse> {
    SdkError::construction_failure("the request could not be built")
}

#[test]
fn test_discover_accounts() {
    let accounts = discover_accounts(vec![
        page(&["11111", "22222"]),
        Event::EndOfListing,
        tags(
            "11111",
            vec![
                tag(ENVIRONMENT, "development"),
                tag(DOMAIN, "testing"),
                tag(TIER, "development"),
            ],
        ),
        tags("22222", vec![]),
    ])
    .unwrap()
    .unwrap();

    assert_eq!(
        accounts,
        vec![
            Account {
                id: "11111".to_string(),
                environment: Some("development".to_string()),
                domain: Some("testing".to_string()),
                tier: Some("development".to_string()),
            },
            Account {
                id: "22222".to_string(),
                environment: None,
                domain: None,
                tier: None,
            }
        ]
    );
}

#[test]
fn classify_without_recognized_keys_leaves_fields_empty() {
    let account = classify(
        "33333".to_string(),
        vec![tag("team", "payments"), tag("catapult.controlant.com/Environment", "x")],
    );
    assert_eq!(account, bare("33333"));
}

#[test]
fn classify_without_tags_leaves_fields_empty() {
    assert_eq!(classify("44444".to_string(), vec![]), bare("44444"));
}

#[test]
fn classify_with_all_keys_fills_each_field_from_its_own_key() {
    let account = classify(
        "55555".to_string(),
        vec![tag(TIER, "gold"), tag("owner", "ops"), tag(ENVIRONMENT, "production"), tag(DOMAIN, "cold-chain")],
    );
    assert_eq!(
        account,
        Account {
            id: "55555".to_string(),
            environment: Some("production".to_string()),
            tier: Some("gold".to_string()),
            domain: Some("cold-chain".to_string()),
        }
    );
}

#[test]
fn classify_takes_the_last_tag_of_a_repeated_key() {
    let account = classify(
        "66666".to_string(),
        vec![tag(DOMAIN, "first"), tag(TIER, "silver"), tag(DOMAIN, "second")],
    );
    assert_eq!(
        account,
        Account {
            id: "66666".to_string(),
            environment: None,
            tier: Some("silver".to_string()),
            domain: Some("second".to_string()),
        }
    );
}

#[test]
fn classify_keeps_an_empty_value() {
    let account = classify("77777".to_string(), vec![tag(ENVIRONMENT, "")]);
    assert_eq!(account.environment, Some(String::new()));
    assert_eq!(account.tier, None);
    assert_eq!(account.domain, None);
}

#[test]
fn read_account_builds_the_account_of_the_tags() {
    let account = read_account(
        "11111".to_string(),
        Ok(TagsOutput { tags: Some(vec![tag(TIER, "bronze")]) }),
    )
    .unwrap();
    assert_eq!(
        account,
        Account {
            id: "11111".to_string(),
            environment: None,
            tier: Some("bronze".to_string()),
            domain: None,
        }
    );
}

#[test]
fn read_account_without_tags_collection_is_bad_tags() {
    let result = read_account("11111".to_string(), Ok(TagsOutput { tags: None }));
    assert!(matches!(result, Err(OrgError::BadTags)));
}

#[test]
fn read_account_passes_the_failure_on() {
    let result = read_account("11111".to_string(), Err(tags_failure()));
    assert!(matches!(result, Err(OrgError::ListTags(SdkError::ConstructionFailure(_)))));
}

#[test]
fn account_ids_keeps_the_order_of_the_page() {
    let ids = account_ids(AccountsOutput {
        accounts: Some(vec![
            ListedAccount { id: Some("b".to_string()) },
            ListedAccount { id: Some("a".to_string()) },
            ListedAccount { id: Some("b".to_string()) },
        ]),
    })
    .unwrap();
    assert_eq!(ids, vec!["b".to_string(), "a".to_string(), "b".to_string()]);
}

#[test]
fn account_ids_of_an_empty_page_are_none() {
    let ids = account_ids(AccountsOutput { accounts: Some(vec![]) }).unwrap();
    assert!(ids.is_empty());
}

#[test]
fn account_ids_without_collection_is_bad_accounts() {
    let result = account_ids(AccountsOutput { accounts: None });
    assert!(matches!(result, Err(OrgError::BadAccounts)));
}

#[test]
fn account_ids_with_an_entry_without_id_is_bad_account_id() {
    let result = account_ids(AccountsOutput {
        accounts: Some(vec![
            ListedAccount { id: Some("11111".to_string()) },
            ListedAccount { id: None },
            ListedAccount { id: Some("33333".to_string()) },
        ]),
    });
    assert!(matches!(result, Err(OrgError::BadAccountId)));
}

#[test]
fn step_walks_through_a_discovery() {
    let discovery = Discovery::new();
    assert_eq!(discovery.phase(), Phase::Listing);

    let (discovery, action) = discovery.step(page(&["1", "2"]));
    assert!(matches!(action, Action::Dispatch(ids) if ids == vec!["1".to_string(), "2".to_string()]));
    assert_eq!(discovery.phase(), Phase::Listing);

    let (discovery, action) = discovery.step(page(&[]));
    assert!(matches!(action, Action::Dispatch(ids) if ids.is_empty()));

    let (discovery, action) = discovery.step(page(&["3"]));
    assert!(matches!(action, Action::Dispatch(ids) if ids == vec!["3".to_string()]));

    let (discovery, action) = discovery.step(Event::EndOfListing);
    assert!(matches!(action, Action::Await));
    assert_eq!(discovery.phase(), Phase::Draining);

    let (discovery, action) = discovery.step(tags("3", vec![tag(TIER, "t3")]));
    assert!(matches!(action, Action::Await));
    let (discovery, action) = discovery.step(tags("1", vec![]));
    assert!(matches!(action, Action::Await));
    assert_eq!(discovery.phase(), Phase::Draining);

    let (discovery, action) = discovery.step(tags("2", vec![tag(DOMAIN, "d2")]));
    assert_eq!(discovery.phase(), Phase::Finished);
    match action {
        Action::Return(Ok(accounts)) => assert_eq!(
            accounts,
            vec![
                Account { id: "3".to_string(), environment: None, tier: Some("t3".to_string()), domain: None },
                bare("1"),
                Account { id: "2".to_string(), environment: None, tier: None, domain: Some("d2".to_string()) },
            ]
        ),
        other => panic!("unexpected action {:?}", other),
    }
}

#[test]
fn step_rejects_events_of_another_phase() {
    let (discovery, action) = Discovery::new().step(tags("1", vec![]));
    assert!(matches!(action, Action::Rejected));
    assert_eq!(discovery.phase(), Phase::Listing);

    let (discovery, _) = discovery.step(page(&["1"]));
    let (discovery, _) = discovery.step(Event::EndOfListing);
    let (discovery, action) = discovery.step(page(&["2"]));
    assert!(matches!(action, Action::Rejected));
    let (discovery, action) = discovery.step(Event::EndOfListing);
    assert!(matches!(action, Action::Rejected));
    assert_eq!(discovery.phase(), Phase::Draining);

    let (discovery, action) = discovery.step(tags("1", vec![]));
    assert!(matches!(action, Action::Return(Ok(accounts)) if accounts == vec![bare("1")]));
    let (discovery, action) = discovery.step(tags("1", vec![]));
    assert!(matches!(action, Action::Rejected));
    let (discovery, action) = discovery.step(page(&["9"]));
    assert!(matches!(action, Action::Rejected));
    let (discovery, action) = discovery.step(Event::EndOfListing);
    assert!(matches!(action, Action::Rejected));
    assert_eq!(discovery.phase(), Phase::Finished);
}

#[test]
fn step_ends_on_a_failed_page() {
    let (discovery, _) = Discovery::new().step(page(&["1"]));
    let (discovery, action) = discovery.step(Event::Page(Err(listing_failure())));
    assert!(matches!(action, Action::Return(Err(OrgError::ListAccounts(SdkError::TimeoutError(_))))));
    assert_eq!(discovery.phase(), Phase::Finished);
}

#[test]
fn step_ends_on_a_malformed_page() {
    let (discovery, action) =
        Discovery::new().step(Event::Page(Ok(AccountsOutput { accounts: None })));
    assert!(matches!(action, Action::Return(Err(OrgError::BadAccounts))));
    assert_eq!(discovery.phase(), Phase::Finished);

    let (discovery, action) = Discovery::new().step(Event::Page(Ok(AccountsOutput {
        accounts: Some(vec![ListedAccount { id: Some("1".to_string()) }, ListedAccount { id: None }]),
    })));
    assert!(matches!(action, Action::Return(Err(OrgError::BadAccountId))));
    assert_eq!(discovery.phase(), Phase::Finished);
}

#[test]
fn discovery_of_an_empty_organization_returns_no_account() {
    let result = discover_accounts(vec![Event::EndOfListing]).unwrap().unwrap();
    assert!(result.is_empty());
    let result = discover_accounts(vec![page(&[]), page(&[]), Event::EndOfListing]).unwrap().unwrap();
    assert!(result.is_empty());
}

#[test]
fn discovery_returns_one_account_for_each_listed_account() {
    let accounts = discover_accounts(vec![
        page(&["a", "b"]),
        page(&["c"]),
        page(&["d", "e"]),
        Event::EndOfListing,
        tags("e", vec![]),
        tags("c", vec![tag(ENVIRONMENT, "staging")]),
        tags("a", vec![]),
        tags("d", vec![tag("other", "x")]),
        tags("b", vec![]),
    ])
    .unwrap()
    .unwrap();
    assert_eq!(accounts.len(), 5);
    let mut ids: Vec<String> = accounts.iter().map(|a| a.id.clone()).collect();
    ids.sort();
    assert_eq!(ids, vec!["a", "b", "c", "d", "e"]);
    assert_eq!(accounts[1].environment, Some("staging".to_string()));
    assert_eq!(accounts[3], bare("d"));
}

#[test]
fn discovery_fails_with_the_listing_when_a_page_fails() {
    let result = discover_accounts(vec![
        page(&["a", "b"]),
        Event::Page(Err(listing_failure())),
        page(&["c"]),
        Event::EndOfListing,
        tags("a", vec![]),
        tags("b", vec![]),
    ])
    .unwrap();
    assert!(matches!(result, Err(OrgError::ListAccounts(SdkError::TimeoutError(_)))));
}

#[test]
fn discovery_fails_with_the_tags_when_a_request_for_tags_fails() {
    let result = discover_accounts(vec![
        page(&["a", "b", "c"]),
        Event::EndOfListing,
        tags("b", vec![]),
        Event::Tags("a".to_string(), Err(tags_failure())),
        tags("c", vec![]),
    ])
    .unwrap();
    assert!(matches!(result, Err(OrgError::ListTags(SdkError::ConstructionFailure(_)))));
}

#[test]
fn discovery_fails_on_malformed_answers() {
    let result = discover_accounts(vec![
        page(&["a"]),
        Event::Page(Ok(AccountsOutput { accounts: None })),
    ])
    .unwrap();
    assert!(matches!(result, Err(OrgError::BadAccounts)));

    let result = discover_accounts(vec![Event::Page(Ok(AccountsOutput {
        accounts: Some(vec![ListedAccount { id: None }]),
    }))])
    .unwrap();
    assert!(matches!(result, Err(OrgError::BadAccountId)));

    let result = discover_accounts(vec![
        page(&["a", "b"]),
        Event::EndOfListing,
        Event::Tags("a".to_string(), Ok(TagsOutput { tags: None })),
        Event::Tags("b".to_string(), Err(tags_failure())),
    ])
    .unwrap();
    assert!(matches!(result, Err(OrgError::BadTags)));
}

#[test]
fn discovery_of_an_unfinished_record_returns_nothing() {
    assert!(discover_accounts(vec![]).is_none());
    assert!(discover_accounts(vec![page(&["a"])]).is_none());
    assert!(discover_accounts(vec![page(&["a", "b"]), Event::EndOfListing, tags("a", vec![])]).is_none());
}

#[test]
fn discovery_repeats_whatever_the_order_of_arrival() {
    let first = discover_accounts(vec![
        page(&["11111", "22222"]),
        Event::EndOfListing,
        tags("11111", vec![tag(TIER, "gold")]),
        tags("22222", vec![tag(DOMAIN, "lab")]),
    ])
    .unwrap()
    .unwrap();
    let mut second = discover_accounts(vec![
        page(&["11111", "22222"]),
        Event::EndOfListing,
        tags("22222", vec![tag(DOMAIN, "lab")]),
        tags("11111", vec![tag(TIER, "gold")]),
    ])
    .unwrap()
    .unwrap();
    assert_ne!(first, second);
    second.reverse();
    assert_eq!(first, second);
}

#[test]
fn org_error_from_a_listing_failure_is_list_accounts() {
    let error = OrgError::from(listing_failure());
    assert!(matches!(error, OrgError::ListAccounts(SdkError::TimeoutError(_))));
}

#[test]
fn org_error_from_a_tags_failure_is_list_tags() {
    let error = OrgError::from(tags_failure());
    assert!(matches!(error, OrgError::ListTags(SdkError::ConstructionFailure(_))));
}
