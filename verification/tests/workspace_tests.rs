use trust_platform::workspace::{
    compare_text, found_message, progress_query_message, progress_steps, workspace_symbol, workspace_symbol_with_progress,
    workspace_symbol_with_ticket, SymbolCandidate, WorkspaceFile,
};

fn cand(name: &str, line: u32, container: Option<&str>) -> SymbolCandidate {
    SymbolCandidate {
        name: name.to_string(),
        kind: 12,
        start_line: line,
        start_character: 4,
        end_line: line,
        end_character: 4 + name.len() as u32,
        container_name: container.map(|c| c.to_string()),
    }
}

fn file(uri: &str, priority: i32, symbols: Vec<SymbolCandidate>) -> WorkspaceFile {
    WorkspaceFile { uri: uri.to_string(), priority, listed_on_empty_query: true, listed_on_query: true, symbols }
}

fn names(files: &Vec<WorkspaceFile>, query: &str) -> Vec<String> {
    workspace_symbol(files, query).unwrap().into_iter().map(|s| s.name).collect()
}

#[test]
fn query_is_trimmed_and_case_insensitive() {
    let files = vec![file("file:///a.st", 0, vec![cand("MotorSpeed", 1, None), cand("Pump", 2, None)])];
    assert_eq!(names(&files, "  MOTOR "), vec!["MotorSpeed"]);
    assert_eq!(names(&files, "speed"), vec!["MotorSpeed"]);
    assert!(names(&files, "valve").is_empty());
}

#[test]
fn unicode_names_are_lower_cased() {
    let files = vec![file("file:///a.st", 0, vec![cand("ÄUSSERE", 1, None), cand("Inner", 2, None)])];
    assert_eq!(names(&files, "äuss"), vec!["ÄUSSERE"]);
}

#[test]
fn empty_query_lists_everything_sorted_by_name() {
    let files = vec![file("file:///a.st", 0, vec![cand("b", 1, None), cand("a", 2, None), cand("C", 3, None)])];
    assert_eq!(names(&files, ""), vec!["C", "a", "b"]);
    assert_eq!(names(&files, "   "), vec!["C", "a", "b"]);
}

#[test]
fn higher_priority_comes_first() {
    let files = vec![
        file("file:///low.st", 1, vec![cand("Alpha", 1, None)]),
        file("file:///high.st", 5, vec![cand("Zeta", 1, None)]),
    ];
    let r = workspace_symbol(&files, "").unwrap();
    assert_eq!(r[0].name, "Zeta");
    assert_eq!(r[0].uri, "file:///high.st");
    assert_eq!(r[1].name, "Alpha");
}

#[test]
fn ties_are_broken_by_uri_container_and_range() {
    let files = vec![
        file("file:///b.st", 0, vec![cand("X", 9, Some("Main")), cand("X", 3, Some("Main")), cand("X", 1, None)]),
        file("file:///a.st", 0, vec![cand("X", 7, None)]),
    ];
    let r = workspace_symbol(&files, "x").unwrap();
    let keys: Vec<(String, Option<String>, u32)> =
        r.iter().map(|s| (s.uri.clone(), s.container_name.clone(), s.start_line)).collect();
    assert_eq!(
        keys,
        vec![
            ("file:///a.st".to_string(), None, 7),
            ("file:///b.st".to_string(), None, 1),
            ("file:///b.st".to_string(), Some("Main".to_string()), 3),
            ("file:///b.st".to_string(), Some("Main".to_string()), 9),
        ]
    );
}

#[test]
fn equal_keys_keep_declaration_order() {
    let mut first = cand("Dup", 1, None);
    first.kind = 5;
    let mut second = cand("Dup", 1, None);
    second.kind = 6;
    let files = vec![file("file:///a.st", 0, vec![first, second])];
    let r = workspace_symbol(&files, "dup").unwrap();
    assert_eq!((r[0].kind, r[1].kind), (5, 6));
}

#[test]
fn visibility_depends_on_query() {
    let mut hidden = file("file:///lib.st", 0, vec![cand("LibFn", 1, None)]);
    hidden.listed_on_empty_query = false;
    let files = vec![hidden, file("file:///main.st", 0, vec![cand("MainFn", 1, None)])];
    assert_eq!(names(&files, ""), vec!["MainFn"]);
    assert_eq!(names(&files, "fn"), vec!["LibFn", "MainFn"]);
}

#[test]
fn cancelled_request_answers_nothing() {
    let files = vec![file("file:///a.st", 0, vec![cand("A", 1, None)])];
    assert!(workspace_symbol_with_ticket(&files, "", &vec![true]).is_none());
    assert_eq!(workspace_symbol_with_ticket(&files, "", &vec![false]).unwrap().len(), 1);
    assert_eq!(workspace_symbol_with_ticket(&files, "", &vec![]).unwrap().len(), 1);
}

#[test]
fn cancellation_during_the_search_answers_nothing() {
    let files = vec![
        file("file:///a.st", 0, vec![cand("A", 1, None), cand("B", 2, None)]),
        file("file:///b.st", 0, vec![cand("C", 1, None)]),
    ];
    // Checks: entry, file a, A, B, file b, C.
    assert!(workspace_symbol_with_ticket(&files, "", &vec![false, false, false, true]).is_none());
    assert!(workspace_symbol_with_ticket(&files, "", &vec![false, false, false, false, false, true]).is_none());
    // A check after the last one does not matter.
    let r = workspace_symbol_with_ticket(&files, "", &vec![false, false, false, false, false, false, true]);
    assert_eq!(r.unwrap().len(), 3);
    // Declarations of an unlisted file are not checked.
    let mut hidden = files;
    hidden[0].listed_on_empty_query = false;
    let r = workspace_symbol_with_ticket(&hidden, "", &vec![false, false, false, false, true]);
    assert_eq!(r.unwrap().len(), 1);
}

#[test]
fn text_comparison() {
    assert_eq!(compare_text("a", "b"), -1);
    assert_eq!(compare_text("b", "a"), 1);
    assert_eq!(compare_text("ab", "ab"), 0);
    assert_eq!(compare_text("a", "ab"), -1);
    assert_eq!(compare_text("Z", "a"), -1);
}

#[test]
fn progress_message() {
    assert_eq!(progress_query_message("   "), None);
    assert_eq!(progress_query_message(" motor "), Some("Query:  motor ".to_string()));
}

#[test]
fn refined_query_keeps_a_subset() {
    let files = vec![file("file:///a.st", 0, vec![cand("MotorSpeed", 1, None), cand("MotorTemp", 2, None), cand("Pump", 3, None)])];
    let wide = names(&files, "motor");
    let narrow = names(&files, "MotorS");
    assert!(narrow.iter().all(|n| wide.contains(n)));
    assert_eq!(narrow, vec!["MotorSpeed"]);
    assert_eq!(names(&files, " MOTOR"), wide);
}

#[test]
fn progress_reports() {
    let steps = progress_steps(450, 200);
    let got: Vec<(usize, usize, String)> = steps.into_iter().map(|s| (s.emitted, s.total, s.message)).collect();
    assert_eq!(
        got,
        vec![
            (200, 450, "Symbols: 200/450".to_string()),
            (400, 450, "Symbols: 400/450".to_string()),
            (450, 450, "Symbols: 450/450".to_string()),
        ]
    );
    assert!(progress_steps(0, 200).is_empty());
    assert_eq!(found_message(3), "Found 3 symbol(s)");
}

fn many(n: u32) -> Vec<WorkspaceFile> {
    let syms: Vec<SymbolCandidate> = (0..n).map(|i| cand(&format!("Sym{:03}", i), i, None)).collect();
    vec![file("file:///big.st", 0, syms)]
}

#[test]
fn progress_search_streams_the_plain_result_in_chunks() {
    let files = many(5);
    let plain: Vec<String> = workspace_symbol(&files, "sym").unwrap().into_iter().map(|s| s.name).collect();
    let p = workspace_symbol_with_progress(&files, "sym", &Vec::new(), true, 2);
    assert_eq!(p.title, "Searching workspace symbols");
    assert_eq!(p.begin_message, Some("Query: sym".to_string()));
    let got: Vec<String> = p.result.as_ref().unwrap().iter().map(|s| s.name.clone()).collect();
    assert_eq!(got, plain);
    let sizes: Vec<usize> = p.partials.iter().map(|c| c.len()).collect();
    assert_eq!(sizes, vec![2, 2, 1]);
    let joined: Vec<String> = p.partials.iter().flat_map(|c| c.iter().map(|s| s.name.clone())).collect();
    assert_eq!(joined, plain);
    let emitted: Vec<usize> = p.reports.iter().map(|r| r.emitted).collect();
    assert_eq!(emitted, vec![2, 4, 5]);
    assert_eq!(p.reports[2].message, "Symbols: 5/5");
    assert_eq!(p.end_message, "Found 5 symbol(s)");
}

#[test]
fn progress_search_without_partial_token_sends_no_chunks() {
    let files = many(3);
    let p = workspace_symbol_with_progress(&files, "   ", &Vec::new(), false, 200);
    assert_eq!(p.begin_message, None);
    assert_eq!(p.result.as_ref().map(|v| v.len()), Some(3));
    assert!(p.reports.is_empty());
    assert!(p.partials.is_empty());
    assert_eq!(p.end_message, "Found 3 symbol(s)");
}

#[test]
fn progress_search_cancelled_reports_nothing_found() {
    let files = many(3);
    let p = workspace_symbol_with_progress(&files, "sym", &vec![false, true], true, 2);
    assert!(p.result.is_none());
    assert!(p.reports.is_empty());
    assert!(p.partials.is_empty());
    assert_eq!(p.end_message, "Found 0 symbol(s)");
}

#[test]
fn chunk_ends_cover_all_results_example() {
    let steps = progress_steps(401, 200);
    let ends: Vec<usize> = steps.iter().map(|s| s.emitted).collect();
    assert_eq!(ends, vec![200, 400, 401]);
    assert!(ends.windows(2).all(|w| w[0] < w[1] && w[1] - w[0] <= 200));
}
