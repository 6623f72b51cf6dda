use jired::boards::fuzzy_search;
use jired::boards::pick_issue;
use jired::boards::str_contains;
use jired::boards::JiraIssue;
use jired::boards::JiraIssueFields;
use jired::boards::JiraSearchQuery;
use jired::boards::JiraSecrets;
use jired::cli::start_times;
use jired::cli::StartSubcommandA;
use jired::cli::StartSubcommandB;
use jired::clocks::build_time_entry_payload;
use jired::clocks::clockify_log_payloads;
use jired::clocks::find_project_index;
use jired::clocks::select_project_index;
use jired::clocks::time_entries_url;
use jired::clocks::ClockifySecrets;
use jired::clocks::Project;
use jired::error::Error;
use jired::grammar::TimeEntry;
use jired::secrets::trim_ascii_ws;
use jired::timefmt::Date;
use jired::tracker::resolve_path;
use jired::tracker::Tracker;

fn issue(key: &str, summary: &str, status: &str) -> JiraIssue {
    JiraIssue {
        key: key.to_string(),
        fields: JiraIssueFields {
            summary: summary.to_string(),
            status_name: status.to_string(),
        },
    }
}

fn projects() -> Vec<Project> {
    vec![
        Project {
            code: "Proj".to_string(),
            key: "proj".to_string(),
            id: "ID-1".to_string(),
        },
        Project {
            code: "Other".to_string(),
            key: "other".to_string(),
            id: "ID-2".to_string(),
        },
    ]
}

fn entry() -> TimeEntry {
    TimeEntry {
        project_code: "proj".to_string(),
        task_id: "PROJ-3".to_string(),
        title: "Task title".to_string(),
        start: "0930".to_string(),
        end: "1700".to_string(),
    }
}

#[test]
fn the_search_url_is_encoded_and_uppercased() {
    let url = JiraSearchQuery::IssuesOnProjectQuery.query("x.atlassian.net", "ACC-1", "proj");
    assert_eq!(
        url,
        "https://x.atlassian.net/rest/api/3/search?jql=assignee%3DACC-1%20and%20project%3DPROJ&fields=key,summary,statusCategory&maxResults=50"
    );
}

#[test]
fn substring_search_finds_runs() {
    assert!(str_contains("fix the big bug", "big bug"));
    assert!(str_contains("abc", ""));
    assert!(!str_contains("abc", "abcd"));
    assert!(!str_contains("fix the bug", "big"));
}

#[test]
fn fuzzy_search_is_case_insensitive_and_status_bound() {
    let issues = vec![
        issue("A-1", "Fix the BIG Bug", "In Progress"),
        issue("A-2", "big bug elsewhere", "Done"),
        issue("A-3", "unrelated work", "In Progress"),
        issue("A-4", "another BIG BUG here", "In Progress"),
    ];
    let found = fuzzy_search(&issues, "big bug");
    let keys: Vec<&str> = found.iter().map(|i| i.key.as_str()).collect();
    assert_eq!(keys, vec!["A-1", "A-4"]);
}

#[test]
fn pick_issue_is_one_based_and_forgiving() {
    let issues = vec![issue("A-1", "first", "In Progress"), issue("A-2", "second", "Done")];
    assert_eq!(pick_issue(&issues, 1), ("A-1".to_string(), "first".to_string()));
    assert_eq!(pick_issue(&issues, 2), ("A-2".to_string(), "second".to_string()));
    assert_eq!(pick_issue(&issues, 0), (String::new(), String::new()));
    assert_eq!(pick_issue(&issues, 3), (String::new(), String::new()));
}

#[test]
fn secret_keys_have_their_explicit_names() {
    assert_eq!(JiraSecrets::Username.key_name(), "Username");
    assert_eq!(JiraSecrets::JiraApiToken.key_name(), "JiraApiToken");
    assert_eq!(JiraSecrets::AccountId.key_name(), "AccountId");
    assert_eq!(JiraSecrets::Server.key_name(), "Server");
    assert_eq!(JiraSecrets::all().len(), 4);
    assert_eq!(ClockifySecrets::ApiToken.key_name(), "ApiToken");
    assert_eq!(ClockifySecrets::WorkspaceId.key_name(), "WorkspaceId");
    assert_eq!(ClockifySecrets::all().len(), 2);
}

#[test]
fn secrets_are_trimmed_before_storage() {
    assert_eq!(trim_ascii_ws("  token-1\n"), "token-1");
    assert_eq!(trim_ascii_ws("\t \r\n"), "");
    assert_eq!(trim_ascii_ws("as is"), "as is");
}

#[test]
fn the_payload_cites_task_project_and_instants() {
    let p = build_time_entry_payload(
        &entry(),
        &projects(),
        &"\"WS-9\"".to_string(),
        &Date::new(2024, 1, 1).unwrap(),
        330,
    )
    .unwrap();
    assert_eq!(p.workspace_id, "WS-9");
    assert_eq!(p.project_id, "ID-1");
    assert!(p.billable);
    assert_eq!(p.description, "[PROJ-3]: Task title");
    assert_eq!(p.start, "2024-01-01T04:00:00+00:00");
    assert_eq!(p.end, "2024-01-01T11:30:00+00:00");
}

#[test]
fn an_unmapped_project_is_a_config_error() {
    let mut e = entry();
    e.project_code = "unknown".to_string();
    let err = build_time_entry_payload(
        &e,
        &projects(),
        &"WS".to_string(),
        &Date::new(2024, 1, 1).unwrap(),
        0,
    )
    .unwrap_err();
    assert!(matches!(err, Error::ConfigError(_)));
}

#[test]
fn a_garbled_stored_time_is_a_parse_error() {
    let mut e = entry();
    e.end = "17x0".to_string();
    let err = build_time_entry_payload(
        &e,
        &projects(),
        &"WS".to_string(),
        &Date::new(2024, 1, 1).unwrap(),
        0,
    )
    .unwrap_err();
    assert!(matches!(err, Error::ParseError(_)));
}

#[test]
fn the_whole_log_becomes_payloads() {
    let tracker = Tracker::with_contents(
        "/tmp/jired/2024-01-01.jj".to_string(),
        Date::new(2024, 1, 1).unwrap(),
        330,
        "proj PROJ-3 1700 0930 \"Task title\"\nother O-1 1800 1700 \"more\"\n".to_string(),
        String::new(),
    );
    let ps = clockify_log_payloads(&tracker, &projects(), &"WS".to_string()).unwrap();
    assert_eq!(ps.len(), 2);
    assert_eq!(ps[0].project_id, "ID-1");
    assert_eq!(ps[1].project_id, "ID-2");
    assert_eq!(ps[1].description, "[O-1]: more");
}

#[test]
fn the_time_entries_url_strips_quotes() {
    assert_eq!(
        time_entries_url(&"\"WS-9\"".to_string()),
        "https://api.clockify.me/api/v1/workspaces/WS-9/time-entries"
    );
}

#[test]
fn project_lookup_finds_the_first_match() {
    let ps = projects();
    assert_eq!(find_project_index(&ps, &"other".to_string()), Some(1));
    assert_eq!(find_project_index(&ps, &"missing".to_string()), None);
}

#[test]
fn project_selection_follows_the_prompt_rules() {
    assert_eq!(select_project_index(1, 0).unwrap(), 0);
    assert_eq!(select_project_index(3, 2).unwrap(), 1);
    assert!(select_project_index(3, 0).is_err());
    assert!(select_project_index(3, 4).is_err());
}

#[test]
fn start_times_fill_in_the_defaults() {
    let explicit = start_times(Some(StartSubcommandA::Till {
        till: "1700".to_string(),
        from: Some(StartSubcommandB::From { start: "0900".to_string() }),
    }));
    assert_eq!(explicit, ("1700".to_string(), "0900".to_string()));

    let (end, start) = start_times(None);
    assert_eq!(end, "-1");
    assert_eq!(start.len(), 4);
    assert!(start.chars().all(|c| c.is_ascii_digit()));
}

#[test]
fn resolved_paths_name_the_day_under_the_product_directory() {
    let p = resolve_path(&Date::new(2024, 1, 1).unwrap()).unwrap();
    assert!(p.ends_with("/jired/2024-01-01.jj"), "{p}");
}
