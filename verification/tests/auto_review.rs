use claurst::auto_review::agent::{
    build_review_tools, conclude_review, isolated_review_context, maybe_spawn_auto_review,
    outcome_to_text, review_query_config, QueryConfig, QueryOutcome, ReviewEvent, TaskStatus,
    ToolContext,
};
use claurst::auto_review::areas::{selected_review_areas, ReviewArea, REVIEW_AREAS};
use claurst::auto_review::changes::{
    collect_reviewable_changes, is_executable_review_path, is_reviewable_path, reviewable_change,
    ReviewableChange, TurnFileSnapshot,
};
use claurst::auto_review::excerpt::{
    build_change_excerpt, line_range_end, line_range_start, render_excerpt_block,
};
use claurst::auto_review::normalize::normalize_for_meaningful_change;
use claurst::auto_review::notification::{build_completion_notification, summarize_paths};
use claurst::auto_review::prompt::{build_review_prompt, review_system_prompt};
use claurst::path::prefix::System;

#[test]
fn skips_non_code_and_whitespace_only_changes() {
    let working_dir = "/repo";
    let snapshots = vec![
        TurnFileSnapshot {
            path: "/repo/docs/readme.md".to_string(),
            before_text: Some("old".to_string()),
            after_text: Some("new".to_string()),
            binary: false,
            turn_index: 2,
        },
        TurnFileSnapshot {
            path: "/repo/src/main.rs".to_string(),
            before_text: Some("fn main() {\n    println!(\"x\");\n}\n".to_string()),
            after_text: Some("fn main() {\n\n    println!(\"x\");\n}\n".to_string()),
            binary: false,
            turn_index: 2,
        },
    ];

    let changes = collect_reviewable_changes(&snapshots, working_dir, System::Unix);
    assert!(changes.is_empty());
}

#[test]
fn keeps_reviewable_code_changes() {
    let working_dir = "/repo";
    let snapshots = vec![TurnFileSnapshot {
        path: "/repo/src/main.rs".to_string(),
        before_text: Some("fn main() {\n    do_a();\n}\n".to_string()),
        after_text: Some("fn main() {\n    do_a();\n    do_b();\n}\n".to_string()),
        binary: false,
        turn_index: 2,
    }];

    let changes = collect_reviewable_changes(&snapshots, working_dir, System::Unix);
    assert_eq!(changes.len(), 1);
    assert_eq!(changes[0].relative_path, "src/main.rs");
    assert!(changes[0].excerpt.contains("do_b"));
    assert!(changes[0].executable);
}

#[test]
fn suppresses_false_positive_notifications() {
    let changes = vec![ReviewableChange {
        relative_path: "src/main.rs".to_string(),
        excerpt: "...".to_string(),
        executable: true,
    }];

    assert!(build_completion_notification(
        &REVIEW_AREAS[0],
        &changes,
        "NO_REVIEW_NEEDED: formatting only"
    )
    .is_none());
}

fn snapshot(path: &str, before: Option<&str>, after: Option<&str>) -> TurnFileSnapshot {
    TurnFileSnapshot {
        path: path.to_string(),
        before_text: before.map(|t| t.to_string()),
        after_text: after.map(|t| t.to_string()),
        binary: false,
        turn_index: 0,
    }
}

fn change(path: &str, executable: bool) -> ReviewableChange {
    ReviewableChange {
        relative_path: path.to_string(),
        excerpt: format!("excerpt of {}", path),
        executable,
    }
}

#[test]
fn new_and_deleted_files_are_changes() {
    let new = reviewable_change(&snapshot("/r/a.py", None, Some("x\n")), "/r", System::Unix).unwrap();
    assert_eq!(new.relative_path, "a.py");
    assert_eq!(
        new.excerpt,
        "Change window: before lines 1-1, after lines 1-1\n--- before\n\n--- after\nx"
    );
    let gone = reviewable_change(&snapshot("/r/a.css", Some("x\n"), None), "/r", System::Unix).unwrap();
    assert!(!gone.executable);
    assert!(reviewable_change(&snapshot("/r/a.py", None, None), "/r", System::Unix).is_none());
    assert!(reviewable_change(&snapshot("/r/a.py", None, Some(" \n\t\n")), "/r", System::Unix).is_none());
}

#[test]
fn binary_files_are_no_changes() {
    let mut binary = snapshot("/r/a.py", Some("x"), Some("y"));
    binary.binary = true;
    assert!(reviewable_change(&binary, "/r", System::Unix).is_none());
}

#[test]
fn paths_outside_the_working_directory_are_kept() {
    let outside = reviewable_change(&snapshot("/q/a.py", None, Some("x")), "/r", System::Unix).unwrap();
    assert_eq!(outside.relative_path, "/q/a.py");
    let sibling = reviewable_change(&snapshot("/repo2/a.py", None, Some("x")), "/repo", System::Unix).unwrap();
    assert_eq!(sibling.relative_path, "/repo2/a.py");
    let slashed = reviewable_change(&snapshot("/r/a\\b.py", None, Some("x")), "/r", System::Unix).unwrap();
    assert_eq!(slashed.relative_path, "a/b.py");
}

#[test]
fn collection_stops_at_eight() {
    let mut snapshots = vec![snapshot("/r/readme.md", None, Some("x"))];
    for i in 0..12 {
        snapshots.push(snapshot(&format!("/r/f{}.rs", i), None, Some("x")));
    }
    let changes = collect_reviewable_changes(&snapshots, "/r", System::Unix);
    let paths: Vec<&str> = changes.iter().map(|c| c.relative_path.as_str()).collect();
    assert_eq!(paths, vec!["f0.rs", "f1.rs", "f2.rs", "f3.rs", "f4.rs", "f5.rs", "f6.rs", "f7.rs"]);
    assert_eq!(collect_reviewable_changes(&snapshots[..4], "/r", System::Unix).len(), 3);
    assert!(collect_reviewable_changes(&[], "/r", System::Unix).is_empty());
}

#[test]
fn reviewable_paths() {
    for ext in [
        "rs", "ts", "tsx", "js", "jsx", "mjs", "cjs", "py", "php", "go", "java", "kt", "kts",
        "swift", "rb", "sh", "ps1", "sql", "toml", "yml", "yaml",
    ] {
        let path = format!("/r/file.{}", ext);
        assert!(is_reviewable_path(&path, System::Unix), "{}", path);
        assert!(is_executable_review_path(&path, System::Unix), "{}", path);
        assert!(is_reviewable_path(&path.to_uppercase(), System::Unix), "{}", path);
    }
    for ext in ["css", "scss", "html", "htm"] {
        let path = format!("/r/file.{}", ext);
        assert!(is_reviewable_path(&path, System::Unix), "{}", path);
        assert!(!is_executable_review_path(&path, System::Unix), "{}", path);
    }
    for name in ["Dockerfile", "Makefile", "justfile", "package.json", "composer.json"] {
        let path = format!("/r/{}", name);
        assert!(is_reviewable_path(&path, System::Unix), "{}", path);
        assert!(is_executable_review_path(&path, System::Unix), "{}", path);
    }
    for path in ["/r/readme.md", "/r/a.json", "/r/rs", "/r/.rs", "/r/a.rs/..", "/", "", "/r/a.rsx"] {
        assert!(!is_reviewable_path(path, System::Unix), "{}", path);
        assert!(!is_executable_review_path(path, System::Unix), "{}", path);
    }
}

#[test]
fn ignored_paths() {
    for dir in ["node_modules", "target", "dist", "build", "coverage", "vendor", ".git"] {
        let path = format!("/r/{}/x.rs", dir);
        assert!(!is_reviewable_path(&path, System::Unix), "{}", path);
        assert!(!is_reviewable_path(&path.to_uppercase(), System::Unix), "{}", path);
        assert!(!is_reviewable_path(&path.replace('/', "\\"), System::Unix), "{}", path);
        assert!(is_executable_review_path(&path, System::Unix), "{}", path);
        assert!(is_reviewable_path(&format!("{}/x.rs", dir), System::Unix), "{}", dir);
    }
    for name in ["Cargo.lock", "package-lock.json", "pnpm-lock.yaml", "yarn.lock", "my-yarn.lock"] {
        assert!(!is_reviewable_path(&format!("/r/{}", name), System::Unix), "{}", name);
    }
    assert!(is_reviewable_path("/r/Cargo.toml", System::Unix));
    assert!(is_executable_review_path("/r/pnpm-lock.yaml", System::Unix));
}

#[test]
fn meaning_survives_blank_lines_and_padding() {
    assert_eq!(normalize_for_meaningful_change("a \n\n\t\n  b\r\n"), "a\n  b");
    assert_eq!(normalize_for_meaningful_change(""), "");
    assert_eq!(normalize_for_meaningful_change("\n \n"), "");
    assert_eq!(normalize_for_meaningful_change("a\rb\r"), "a\rb");
    assert_eq!(
        normalize_for_meaningful_change("a\nb"),
        normalize_for_meaningful_change("a  \r\n\u{3000}\n\nb\n\n")
    );
    assert_ne!(
        normalize_for_meaningful_change("a\nb"),
        normalize_for_meaningful_change("a\n b")
    );
    let once = normalize_for_meaningful_change("x  \n\n y \n");
    assert_eq!(normalize_for_meaningful_change(&once), once);
}

#[test]
fn meaning_is_what_the_standard_library_makes_of_it() {
    for text in ["", "\n", "a", "a\n", "\r\n", "a\r", "a\r\n\r\nb \r", " a\n\u{85}\nb\u{2028}c\u{a0}", "\n\n\nx"] {
        let expected = text
            .lines()
            .map(str::trim_end)
            .filter(|line| !line.trim().is_empty())
            .collect::<Vec<_>>()
            .join("\n");
        assert_eq!(normalize_for_meaningful_change(text), expected, "{:?}", text);
    }
}

#[test]
fn excerpt_shows_the_change_and_six_lines_around_it() {
    let before: Vec<String> = (1..=20).map(|i| format!("line {}", i)).collect();
    let mut after = before.clone();
    after[9] = "changed".to_string();
    let excerpt = build_change_excerpt(&before.join("\n"), &after.join("\n"));
    let window = |changed: &str| {
        let mut lines = vec!["...".to_string()];
        for i in 4..=16 {
            lines.push(if i == 10 { changed.to_string() } else { format!("line {}", i) });
        }
        lines.push("...".to_string());
        lines.join("\n")
    };
    assert_eq!(
        excerpt,
        format!(
            "Change window: before lines 4-16, after lines 4-16\n--- before\n{}\n--- after\n{}",
            window("line 10"),
            window("changed")
        )
    );
}

#[test]
fn excerpt_of_a_repeated_line() {
    assert_eq!(
        build_change_excerpt("a\na\n", "a\na\na\n"),
        "Change window: before lines 1-2, after lines 1-3\n--- before\na\na\n--- after\na\na\na"
    );
    assert_eq!(
        build_change_excerpt("", ""),
        "Change window: before lines 1-1, after lines 1-1\n--- before\n\n--- after\n"
    );
}

#[test]
fn long_excerpts_are_cut() {
    let long = "\u{e9}".repeat(3000);
    let excerpt = build_change_excerpt("", &long);
    assert!(excerpt.ends_with("\n[excerpt truncated]"));
    assert_eq!(excerpt.chars().count(), 2420);
    assert!(excerpt.starts_with("Change window: before lines 1-1, after lines 1-1\n"));
}

#[test]
fn blocks_have_dots_for_gaps() {
    let lines = ["a", "b", "", "c"];
    assert_eq!(render_excerpt_block(&lines, 1, 3, true, false), "...\nb");
    assert_eq!(render_excerpt_block(&lines, 1, 3, true, true), "...\nb\n\n...");
    assert_eq!(render_excerpt_block(&lines, 0, 4, false, false), "a\nb\n\nc");
    assert_eq!(render_excerpt_block(&lines, 2, 2, false, false), "");
    assert_eq!(render_excerpt_block(&lines, 2, 2, true, false), "...");
}

#[test]
fn line_numbers_start_at_one() {
    assert_eq!(line_range_start(0), 1);
    assert_eq!(line_range_start(4), 5);
    assert_eq!(line_range_end(0), 1);
    assert_eq!(line_range_end(1), 1);
    assert_eq!(line_range_end(9), 9);
}

#[test]
fn security_is_for_what_runs() {
    assert_eq!(
        selected_review_areas(&[change("a.css", false), change("a.rs", true)]),
        vec![ReviewArea::Correctness, ReviewArea::Security, ReviewArea::Architecture]
    );
    assert_eq!(
        selected_review_areas(&[change("a.css", false)]),
        vec![ReviewArea::Correctness, ReviewArea::Architecture]
    );
    assert_eq!(
        selected_review_areas(&[]),
        vec![ReviewArea::Correctness, ReviewArea::Architecture]
    );
}

#[test]
fn areas_have_names() {
    let ids: Vec<&str> = REVIEW_AREAS.iter().map(|a| a.id()).collect();
    assert_eq!(ids, vec!["correctness", "security", "architecture"]);
    let labels: Vec<&str> = REVIEW_AREAS.iter().map(|a| a.label()).collect();
    assert_eq!(labels, vec!["Correctness", "Security", "Architecture"]);
    assert!(REVIEW_AREAS[1].focus().starts_with("Look for unsafe input handling"));
}

#[test]
fn prompt_lists_files_and_excerpts() {
    let changes = [change("a.rs", true), change("b.rs", true)];
    let prompt = build_review_prompt(&ReviewArea::Security, &changes);
    let expected = format!(
        "Review the following code changes. You may inspect the current files with read-only tools before deciding. If there is no real issue, respond with NO_REVIEW_NEEDED exactly as instructed.\n\nFocus area: Security\n{}\n\nChanged files:\n- a.rs\n- b.rs\n\nChange excerpts:\n\nFile: a.rs\nexcerpt of a.rs\n\nFile: b.rs\nexcerpt of b.rs\n\nResponse rules:\n- Use only findings grounded in these changes and the current files.\n- Prefer real regressions or risks over speculative nits.\n- Keep the response concise.\n",
        ReviewArea::Security.focus()
    );
    assert_eq!(prompt, expected);
    let system = review_system_prompt(&ReviewArea::Security);
    assert!(system.starts_with("You are a background code review agent."));
    assert!(system.ends_with(&format!(
        "running write tools.\n\nReview focus: {}",
        ReviewArea::Security.focus()
    )));
}

#[test]
fn summary_names_four_paths_in_order() {
    assert_eq!(summarize_paths(&[]), "");
    assert_eq!(summarize_paths(&[change("b", true), change("a", true)]), "a, b");
    let four = [change("d", true), change("b", true), change("c", true), change("a", true)];
    assert_eq!(summarize_paths(&four), "a, b, c, d");
    let six: Vec<ReviewableChange> =
        ["z", "B", "a/b", "a.b", "\u{e9}", "a"].iter().map(|p| change(p, true)).collect();
    assert_eq!(summarize_paths(&six), "B, a, a.b, a/b and 2 more file(s)");
    let reversed: Vec<ReviewableChange> = six.into_iter().rev().collect();
    assert_eq!(summarize_paths(&reversed), "B, a, a.b, a/b and 2 more file(s)");
}

#[test]
fn paths_are_sorted_as_the_standard_library_sorts() {
    let paths = ["\u{10000}", "\u{ffff}", "\u{e000}", "z"];
    let mut sorted = paths.to_vec();
    sorted.sort_unstable();
    let changes: Vec<ReviewableChange> = paths.iter().map(|p| change(p, true)).collect();
    assert_eq!(summarize_paths(&changes), sorted.join(", "));
}

#[test]
fn notifications_tell_of_findings() {
    let changes = [change("a.rs", true)];
    assert_eq!(
        build_completion_notification(&ReviewArea::Security, &changes, "  bad \n"),
        Some("[AutoReview/security] Findings for a.rs.\n\nbad\n\nDecide whether these findings are worth applying; ignore this note if the concern is already addressed.".to_string())
    );
    assert!(build_completion_notification(&ReviewArea::Security, &changes, " \n ").is_none());
    assert!(build_completion_notification(
        &ReviewArea::Security,
        &changes,
        "\n NO_REVIEW_NEEDED: fine"
    )
    .is_none());
    assert!(build_completion_notification(
        &ReviewArea::Security,
        &changes,
        "NO_REVIEW_NEEDED"
    )
    .is_some());
}

#[test]
fn long_notifications_are_cut() {
    let note = build_completion_notification(
        &ReviewArea::Correctness,
        &[change("a.rs", true)],
        &"x".repeat(4000),
    )
    .unwrap();
    assert!(note.ends_with("x\n\n[AutoReview truncated]"));
    assert_eq!(note.chars().count(), 3224);
}

fn context(notifier: Option<u8>) -> ToolContext<String, Vec<u8>, u8, u8, u8> {
    ToolContext {
        shared: "shared".to_string(),
        file_history: vec![1],
        current_turn: 5,
        completion_notifier: notifier,
        pending_permissions: Some(2),
        user_question_tx: Some(3),
    }
}

#[test]
fn review_starts_one_agent_for_each_area() {
    let snapshots = [snapshot("/r/a.rs", Some("x"), Some("y"))];
    let review = maybe_spawn_auto_review(&context(Some(1)), true, &snapshots, "/r", System::Unix).unwrap();
    assert_eq!(review.changes, collect_reviewable_changes(&snapshots, "/r", System::Unix));
    let areas: Vec<ReviewArea> = review.jobs.iter().map(|j| j.area).collect();
    assert_eq!(areas, REVIEW_AREAS.to_vec());
    assert_eq!(review.jobs[1].task_description, "auto-review: Security");
    assert_eq!(review.jobs[1].task_name, "auto-review security");
    assert_eq!(
        review.jobs[1].prompt,
        build_review_prompt(&ReviewArea::Security, &review.changes)
    );
}

#[test]
fn no_review_without_need() {
    let snapshots = [snapshot("/r/a.rs", Some("x"), Some("y"))];
    assert!(maybe_spawn_auto_review(&context(Some(1)), false, &snapshots, "/r", System::Unix).is_none());
    assert!(maybe_spawn_auto_review(&context(None), true, &snapshots, "/r", System::Unix).is_none());
    assert!(maybe_spawn_auto_review(&context(Some(1)), true, &[], "/r", System::Unix).is_none());
    let review_ctx = isolated_review_context(&context(Some(1)), vec![]);
    assert!(maybe_spawn_auto_review(&review_ctx, true, &snapshots, "/r", System::Unix).is_none());
}

#[test]
fn review_context_is_cut_off() {
    let review_ctx = isolated_review_context(&context(Some(1)), vec![9]);
    assert_eq!(review_ctx.shared, "shared");
    assert_eq!(review_ctx.file_history, vec![9]);
    assert_eq!(review_ctx.current_turn, 0);
    assert!(review_ctx.completion_notifier.is_none());
    assert!(review_ctx.pending_permissions.is_none());
    assert!(review_ctx.user_question_tx.is_none());
}

fn query_config(max_tokens: u32, tool_result_budget: usize) -> QueryConfig<String, u8> {
    QueryConfig {
        model: "big".to_string(),
        max_tokens,
        max_turns: 100,
        system_prompt: Some("main".to_string()),
        append_system_prompt: Some("more".to_string()),
        output_style_prompt: Some("style".to_string()),
        working_directory: None,
        thinking_budget: Some(10),
        tool_result_budget,
        fallback_model: Some("other".to_string()),
        agent_name: None,
        shared: "shared".to_string(),
        extras: Some(1),
    }
}

#[test]
fn review_queries_have_tighter_limits() {
    let area = ReviewArea::Architecture;
    let review = review_query_config(&query_config(8_000, 50_000), "small", "/r", &area);
    assert_eq!(review.model, "small");
    assert_eq!(review.max_tokens, 4_096);
    assert_eq!(review.max_turns, 6);
    assert_eq!(review.system_prompt, Some(review_system_prompt(&area)));
    assert_eq!(review.append_system_prompt, None);
    assert_eq!(review.output_style_prompt, Some("style".to_string()));
    assert_eq!(review.working_directory, Some("/r".to_string()));
    assert_eq!(review.thinking_budget, Some(10));
    assert_eq!(review.tool_result_budget, 20_000);
    assert_eq!(review.fallback_model, None);
    assert_eq!(review.agent_name, Some("auto-review-architecture".to_string()));
    assert_eq!(review.shared, "shared");
    assert_eq!(review.extras, None);
    let review = review_query_config(&query_config(1_000, 500), "small", "/r", &area);
    assert_eq!(review.max_tokens, 1_000);
    assert_eq!(review.tool_result_budget, 500);
}

#[test]
fn review_agents_get_the_allowed_tools() {
    let names = ["Bash", "Read", "Grep", "Write", "Glob", "Read"];
    assert_eq!(build_review_tools(&names, &["Read", "Glob", "Grep"]), vec![1, 2, 4, 5]);
    assert!(build_review_tools(&names, &[]).is_empty());
    assert!(build_review_tools(&[], &["Read"]).is_empty());
}

#[test]
fn outcomes_have_texts() {
    assert_eq!(outcome_to_text(QueryOutcome::EndTurn { message: "m".to_string() }), "m");
    assert_eq!(
        outcome_to_text(QueryOutcome::MaxTokens { partial_message: "m".to_string() }),
        "m\n\n[Note: Auto-review hit max_tokens limit]"
    );
    assert_eq!(
        outcome_to_text(QueryOutcome::Cancelled),
        "[Agent stopped: auto-review was cancelled]"
    );
    assert_eq!(outcome_to_text(QueryOutcome::Error("e".to_string())), "[Agent error: e]");
    assert_eq!(
        outcome_to_text(QueryOutcome::BudgetExceeded {
            cost_usd: format!("{:.4}", 1.5),
            limit_usd: format!("{:.4}", 1.0),
        }),
        "[Agent stopped: auto-review exceeded budget $1.5000 / $1.0000]"
    );
}

#[test]
fn cut_short_reviews_fail_and_are_told() {
    let changes = [change("a.rs", true)];
    for outcome in [
        QueryOutcome::Cancelled,
        QueryOutcome::Error("e".to_string()),
        QueryOutcome::BudgetExceeded { cost_usd: "2".to_string(), limit_usd: "1".to_string() },
    ] {
        let event = ReviewEvent::Finished(outcome);
        let conclusion = conclude_review(&ReviewArea::Correctness, &changes, event);
        let report = conclusion.output.unwrap();
        assert!(matches!(conclusion.status, TaskStatus::Failed(reason) if reason == report));
        assert!(conclusion.notification.unwrap().contains(&report));
    }
}

#[test]
fn finished_reviews_are_concluded() {
    let changes = [change("a.rs", true)];
    let event = ReviewEvent::Finished(QueryOutcome::EndTurn { message: "bug".to_string() });
    let conclusion = conclude_review(&ReviewArea::Correctness, &changes, event);
    assert_eq!(conclusion.output, Some("bug".to_string()));
    assert!(matches!(conclusion.status, TaskStatus::Completed));
    assert_eq!(
        conclusion.notification,
        build_completion_notification(&ReviewArea::Correctness, &changes, "bug")
    );

    let message = "NO_REVIEW_NEEDED: docs only".to_string();
    let event = ReviewEvent::Finished(QueryOutcome::EndTurn { message });
    let conclusion = conclude_review(&ReviewArea::Correctness, &changes, event);
    assert!(matches!(conclusion.status, TaskStatus::Completed));
    assert_eq!(conclusion.notification, None);

    let event = ReviewEvent::ClientFailed("no key".to_string());
    let conclusion = conclude_review(&ReviewArea::Correctness, &changes, event);
    assert_eq!(conclusion.output, None);
    assert!(matches!(
        conclusion.status,
        TaskStatus::Failed(reason) if reason == "client init failed: no key"
    ));
    assert_eq!(conclusion.notification, None);
}

#[test]
fn windows_paths_are_reviewed_by_their_own_rules() {
    let windows = System::Windows;
    assert!(is_reviewable_path("C:\\r\\Makefile", windows));
    assert!(!is_reviewable_path("C:\\r\\Makefile", System::Unix));
    assert!(is_executable_review_path("C:Makefile", windows));
    assert!(!is_reviewable_path("C:\\r\\Target\\a.rs", windows));
    assert!(!is_executable_review_path("\\\\host\\a.rs", windows));
    assert!(is_executable_review_path("\\\\host\\share\\a.rs", windows));
    for dir in ["C:\\r", "c:\\r", "C:/r/", "c:\\.\\r\\"] {
        let change =
            reviewable_change(&snapshot("C:\\r\\src\\a.rs", None, Some("x")), dir, windows).unwrap();
        assert_eq!(change.relative_path, "src/a.rs");
        assert!(change.executable);
    }
    for dir in ["D:\\r", "C:\\R", "\\r", "C:r"] {
        let change =
            reviewable_change(&snapshot("C:\\r\\src\\a.rs", None, Some("x")), dir, windows).unwrap();
        assert_eq!(change.relative_path, "C:/r/src/a.rs");
    }
}

#[test]
fn case_plays_no_part() {
    assert!(is_reviewable_path("/repo/Dockerfile", System::Unix));
    assert!(is_reviewable_path("/repo/Main.RS", System::Unix));
    assert!(!is_reviewable_path("/repo/Target/main.rs", System::Unix));
    let paths = [
        "/repo/Dockerfile",
        "/repo/Main.RS",
        "/repo/Target/main.rs",
        "/repo/Yarn.Lock",
        "/repo/Page.Html",
        "C:\\Repo\\Main.Rs",
        "\\\\Host\\Share\\Main.rs",
        "\\\\?\\UNC\\Host\\Share\\Main.rs",
        "\\\\?\\C:\\Main.rs",
        "",
    ];
    for path in paths {
        let upper = path.to_ascii_uppercase();
        let lower = path.to_ascii_lowercase();
        for system in [System::Unix, System::Windows] {
            let worth = is_reviewable_path(path, system);
            assert_eq!(is_reviewable_path(&upper, system), worth, "{}", path);
            assert_eq!(is_reviewable_path(&lower, system), worth, "{}", path);
            let runs = is_executable_review_path(path, system);
            assert_eq!(is_executable_review_path(&upper, system), runs, "{}", path);
            assert_eq!(is_executable_review_path(&lower, system), runs, "{}", path);
        }
    }
    // A server is no file, but `unc` in lower case names no server.
    assert!(!is_reviewable_path("\\\\?\\UNC\\a.rs", System::Windows));
    assert!(is_reviewable_path("\\\\?\\unc\\a.rs", System::Windows));
}
