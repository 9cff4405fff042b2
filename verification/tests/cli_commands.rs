use claude_sdk_verified::commands::{
    command_description, history_command_text, is_confirmed, listing_header, output_preview,
    parse_export_format, status_mark, duration_text, since_from_parsed, CalendarDate,
    CommandEntry, CostCommand, ExportFormat, HistoryCommand, InteractiveError, ListCommand,
    RunCommand, SessionAction, SessionRequest,
};
use claude_sdk_verified::config::ConfigAction;

#[test]
fn test_list_command_creation() {
    let cmd = ListCommand {
        filter: Some("test".to_string()),
        detailed: true,
    };

    assert_eq!(cmd.filter, Some("test".to_string()));
    assert!(cmd.detailed);
}

#[test]
fn cli_simple_test_test_run_command_creation() {
    let cmd = RunCommand {
        command: "analyze".to_string(),
        args: vec!["--file".to_string(), "test.rs".to_string()],
        session: Some("my-session".to_string()),
        parallel: true,
        agents: 4,
    };

    assert_eq!(cmd.command, "analyze");
    assert_eq!(cmd.args.len(), 2);
    assert_eq!(cmd.session, Some("my-session".to_string()));
    assert!(cmd.parallel);
    assert_eq!(cmd.agents, 4);
}

#[test]
fn test_session_action_variants() {
    let create = SessionAction::Create {
        name: "test-session".to_string(),
        description: Some("Test description".to_string()),
    };

    match create {
        SessionAction::Create { name, description } => {
            assert_eq!(name, "test-session");
            assert_eq!(description, Some("Test description".to_string()));
        }
        _ => panic!("Wrong variant"),
    }

    let delete = SessionAction::Delete {
        session: "test-session".to_string(),
        force: true,
    };

    match delete {
        SessionAction::Delete { session, force } => {
            assert_eq!(session, "test-session");
            assert!(force);
        }
        _ => panic!("Wrong variant"),
    }

    let list = SessionAction::List { detailed: false };

    match list {
        SessionAction::List { detailed } => {
            assert!(!detailed);
        }
        _ => panic!("Wrong variant"),
    }

    let switch = SessionAction::Switch {
        session: "other-session".to_string(),
    };

    match switch {
        SessionAction::Switch { session } => {
            assert_eq!(session, "other-session");
        }
        _ => panic!("Wrong variant"),
    }
}

#[test]
fn cli_simple_test_test_cost_command_creation() {
    let cmd = CostCommand {
        session: Some("work-session".to_string()),
        breakdown: true,
        since: Some("2024-01-01".to_string()),
        export: Some("json".to_string()),
    };

    assert_eq!(cmd.session, Some("work-session".to_string()));
    assert!(cmd.breakdown);
    assert_eq!(cmd.since, Some("2024-01-01".to_string()));
    assert_eq!(cmd.export, Some("json".to_string()));
}

#[test]
fn cli_simple_test_test_history_command_creation() {
    let cmd = HistoryCommand {
        search: Some("analyze.*test".to_string()),
        session: Some("debug-session".to_string()),
        limit: 50,
        output: true,
        export: Some("csv".to_string()),
    };

    assert_eq!(cmd.search, Some("analyze.*test".to_string()));
    assert_eq!(cmd.session, Some("debug-session".to_string()));
    assert_eq!(cmd.limit, 50);
    assert!(cmd.output);
    assert_eq!(cmd.export, Some("csv".to_string()));
}

#[test]
fn test_config_action_variants() {
    let show = ConfigAction::Show;
    match show {
        ConfigAction::Show => {}
        _ => panic!("Wrong variant"),
    }

    let set = ConfigAction::SetValue {
        key: "timeout_secs".to_string(),
        value: "60".to_string(),
    };

    match set {
        ConfigAction::SetValue { key, value } => {
            assert_eq!(key, "timeout_secs");
            assert_eq!(value, "60");
        }
        _ => panic!("Wrong variant"),
    }

    let reset = ConfigAction::Reset { force: false };

    match reset {
        ConfigAction::Reset { force } => {
            assert!(!force);
        }
        _ => panic!("Wrong variant"),
    }

    let path = ConfigAction::Path;
    match path {
        ConfigAction::Path => {}
        _ => panic!("Wrong variant"),
    }
}

#[test]
fn test_time_duration_parsing() {
    let durations = vec![
        ("1h", "1 hour"),
        ("24h", "24 hours"),
        ("7d", "7 days"),
        ("30d", "30 days"),
        ("1w", "1 week"),
    ];

    for (input, expected_desc) in durations {
        assert!(!input.is_empty(), "Duration string should not be empty");
        assert!(input.len() >= 2, "Duration should have value and unit");
        assert!(
            expected_desc.contains(&input[..input.len() - 1]),
            "Description should contain the numeric part"
        );
    }
}

#[test]
fn test_command_argument_validation() {
    let valid_args = vec![
        vec!["--file".to_string(), "test.rs".to_string()],
        vec!["--output".to_string(), "result.txt".to_string()],
        vec!["--verbose".to_string()],
    ];

    for args in valid_args {
        assert!(
            !args.is_empty() || args.is_empty(),
            "Args vector should be valid"
        );

        if !args.is_empty() {
            for arg in &args {
                if arg.starts_with("--") {
                    assert!(arg.len() > 2, "Flag should have content after --");
                }
            }
        }
    }
}

#[test]
fn test_session_identifier_validation() {
    let valid_sessions = vec!["my-session", "session_1", "test123", "work-project"];

    let invalid_sessions = vec!["", " ", "session with spaces"];

    for session in valid_sessions {
        assert!(!session.is_empty(), "Valid session should not be empty");
        assert!(
            !session.contains(' '),
            "Valid session should not contain spaces"
        );
    }

    for session in invalid_sessions {
        assert!(
            session.is_empty() || session.contains(' '),
            "Invalid session should be empty or contain spaces"
        );
    }
}

fn entry(name: &str) -> CommandEntry {
    CommandEntry {
        name: name.to_string(),
        description: String::new(),
        path: format!("/cmds/{}.sh", name),
    }
}

#[test]
fn list_selection_filters_and_sorts_by_name() {
    let found = vec![entry("test"), entry("analyze"), entry("build"), entry("retest")];
    let all = ListCommand { filter: None, detailed: false }.select(found.clone());
    let names: Vec<&str> = all.iter().map(|e| e.name.as_str()).collect();
    assert_eq!(names, vec!["analyze", "build", "retest", "test"]);

    let filtered = ListCommand { filter: Some("test".to_string()), detailed: false }.select(found);
    let names: Vec<&str> = filtered.iter().map(|e| e.name.as_str()).collect();
    assert_eq!(names, vec!["retest", "test"]);
}

#[test]
fn list_selection_keeps_equal_names_in_found_order() {
    let mut first = entry("a");
    first.path = "/cmds/a.sh".to_string();
    let mut second = entry("a");
    second.path = "/cmds/a.py".to_string();
    let listed = ListCommand { filter: None, detailed: true }.select(vec![entry("b"), first, second]);
    assert_eq!(listed[0].path, "/cmds/a.sh");
    assert_eq!(listed[1].path, "/cmds/a.py");
    assert_eq!(listed[2].name, "b");
}

#[test]
fn command_descriptions_strip_comment_markers() {
    assert_eq!(command_description(Some("# Analyze code\necho 'analyzing...'")), "Analyze code");
    assert_eq!(command_description(Some("// Run tests\nprint('testing...')")), "Run tests");
    // Only markers at the very start go: after `#` comes a space, so `//` stays.
    assert_eq!(command_description(Some("## //  Deep  \r\nrest")), "//  Deep");
    assert_eq!(command_description(Some("")), "No description available");
    assert_eq!(command_description(None), "Unable to read description");
}

#[test]
fn empty_listing_messages_and_tip() {
    let filtered = ListCommand { filter: Some("zzz".to_string()), detailed: false };
    assert_eq!(filtered.empty_message(".agent/commands/"), "No commands found matching filter 'zzz'");
    assert!(!filtered.shows_tip());
    let plain = ListCommand { filter: None, detailed: false };
    assert_eq!(plain.empty_message(".agent/commands/"), "No commands found in .agent/commands/ directory");
    assert!(plain.shows_tip());
    assert_eq!(listing_header(3), "Available commands (3)");
}

#[test]
fn confirmation_accepts_only_y() {
    assert!(is_confirmed("y\n"));
    assert!(is_confirmed("  Y  "));
    assert!(!is_confirmed("yes"));
    assert!(!is_confirmed(""));
    assert!(!is_confirmed("n"));
}

#[test]
fn delete_asks_unless_forced() {
    let ask = SessionAction::Delete { session: "s".to_string(), force: false };
    let forced = SessionAction::Delete { session: "s".to_string(), force: true };
    assert!(ask.needs_confirmation());
    assert!(!forced.needs_confirmation());
    assert!(!SessionAction::List { detailed: true }.needs_confirmation());
}

#[test]
fn run_command_plans_its_session_and_agents() {
    let cmd = RunCommand {
        command: "analyze".to_string(),
        args: vec!["--file".to_string(), "test.rs".to_string()],
        session: None,
        parallel: true,
        agents: 3,
    };
    match cmd.session_request() {
        SessionRequest::CurrentOrNew { name, description } => {
            assert_eq!(name, "default");
            assert_eq!(description, "Default session created automatically");
        }
        _ => panic!("expected the current session"),
    }
    assert!(cmd.runs_in_parallel());
    let contexts = cmd.agent_contexts(7);
    assert_eq!(contexts.len(), 3);
    assert_eq!(contexts[2].session_id, Some(7));
    assert_eq!(contexts[2].args, vec!["--file", "test.rs"]);
    assert_eq!(cmd.running_message(), "🚀 Running: analyze --file test.rs");
    assert_eq!(cmd.parallel_message(), "🚀 Running analyze in parallel with 3 agents");

    let single = RunCommand { parallel: true, agents: 1, ..cmd };
    assert!(!single.runs_in_parallel());
}

#[test]
fn export_formats_are_json_or_csv() {
    assert_eq!(parse_export_format("json").unwrap(), ExportFormat::Json);
    assert_eq!(parse_export_format("csv").unwrap(), ExportFormat::Csv);
    match parse_export_format("xml") {
        Err(InteractiveError::InvalidInput(m)) => {
            assert_eq!(m, "Invalid export format. Use 'json' or 'csv'.")
        }
        _ => panic!("expected an invalid input"),
    }
    assert_eq!(ExportFormat::Json.cost_file_name(), "cost_export.json");
    assert_eq!(ExportFormat::Csv.history_file_name(), "history_export.csv");
}

#[test]
fn cost_since_dates_must_be_dates() {
    let cmd = CostCommand {
        session: None,
        breakdown: false,
        since: Some("2024-02-29".to_string()),
        export: None,
    };
    assert_eq!(
        cmd.since_date().unwrap(),
        Some(CalendarDate { year: 2024, month: 2, day: 29 })
    );
    let bad = CostCommand { since: Some("2023-02-29".to_string()), ..cmd.clone() };
    match bad.since_date() {
        Err(InteractiveError::InvalidInput(m)) => {
            assert_eq!(m, "Invalid date format. Please use YYYY-MM-DD format.")
        }
        _ => panic!("expected an invalid date"),
    }
    let none = CostCommand { since: None, ..cmd };
    assert_eq!(none.since_date().unwrap(), None);
    assert!(since_from_parsed(None).is_err());
}

#[test]
fn history_rows_show_command_duration_and_status() {
    assert_eq!(history_command_text("analyze", &vec![]), "analyze");
    assert_eq!(
        history_command_text("analyze", &vec!["a".to_string(), "b".to_string()]),
        "analyze a b"
    );
    assert_eq!(duration_text(250), "250ms");
    assert_eq!(status_mark(true), "✓");
    assert_eq!(status_mark(false), "✗");
    let cmd = HistoryCommand {
        search: Some("x".to_string()),
        session: None,
        limit: 20,
        output: false,
        export: Some("pdf".to_string()),
    };
    let q = cmd.query(Some(9));
    assert_eq!(q.command_pattern, Some("x".to_string()));
    assert_eq!(q.output_pattern, Some("x".to_string()));
    assert_eq!(q.session_id, Some(9));
    assert!(cmd.shows_more_hint(20));
    assert!(!cmd.shows_more_hint(3));
    match cmd.export_format() {
        Err(InteractiveError::InvalidInput(m)) => {
            assert_eq!(m, "Invalid export format. Use 'json' or 'csv'.")
        }
        _ => panic!("expected an invalid input error"),
    }
}

#[test]
fn output_previews_are_cut_at_a_hundred_bytes() {
    assert_eq!(output_preview(Some("boom"), "ignored"), "Error: boom");
    assert_eq!(output_preview(None, "  short  "), "short");
    let long = "x".repeat(150);
    let preview = output_preview(None, &long);
    assert_eq!(preview, format!("{}...", "x".repeat(100)));
    let exact = "y".repeat(100);
    assert_eq!(output_preview(None, &exact), exact);
}
