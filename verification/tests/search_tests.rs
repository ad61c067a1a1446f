use hybrid_search::filter::build_filter;
use hybrid_search::record::{Record, Score};
use hybrid_search::search::{apply_rerank, effective_limit, fuse_search_results, search};
use hybrid_search::text::{basename, escape_quotes, strip_verbatim_markers};
use hybrid_search::Error;

fn row(id: u128, workspace: &str, file: &str, text: &str) -> Record {
    Record {
        id,
        workspace_name: workspace.to_string(),
        workspace_path: format!("/{}", workspace),
        file_name: file.to_string(),
        page_number: Some("3".to_string()),
        text: text.to_string(),
        vector: Vec::new(),
    }
}

#[test]
fn exactly_300_characters_is_dropped_301_is_kept() {
    let short = row(1, "W", "/w/a.txt", &"x".repeat(300));
    let long = row(2, "W", "/w/b.txt", &"y".repeat(301));
    let out = search(&"W".to_string(), &Vec::new(), vec![short, long], Vec::new());
    assert_eq!(out.len(), 1);
    assert_eq!(out[0].id, 2);
}

#[test]
fn other_workspaces_rows_never_come_back() {
    let text = "z".repeat(320);
    let mine = row(1, "A", "/a/x.txt", &text);
    let foreign = row(2, "B", "/b/x.txt", &text);
    let foreign_only = row(3, "B", "/b/y.txt", &"w".repeat(320));
    let out = search(
        &"A".to_string(),
        &Vec::new(),
        vec![foreign, mine, foreign_only],
        Vec::new(),
    );
    assert_eq!(out.len(), 1);
    assert_eq!(out[0].id, 1);
}

#[test]
fn context_file_filter_drops_other_files() {
    let text1 = "a".repeat(310);
    let text2 = "b".repeat(310);
    let r1 = row(1, "W", "/w/a.txt", &text1);
    let r2 = row(2, "W", "/w/b.txt", &text2);
    let ctx = vec!["/w/b.txt".to_string()];
    let out = search(&"W".to_string(), &ctx, vec![r1, r2], Vec::new());
    assert_eq!(out.len(), 1);
    assert_eq!(out[0].id, 2);
}

#[test]
fn search_result_carries_basename_and_path() {
    let text = "c".repeat(305);
    let r = row(7, "W", "/deep/dir/name.pdf", &text);
    let out = search(&"W".to_string(), &Vec::new(), vec![r], Vec::new());
    assert_eq!(out.len(), 1);
    assert_eq!(out[0].file_name, "name.pdf");
    assert_eq!(out[0].file_path, "/deep/dir/name.pdf");
    assert_eq!(out[0].page_number, Some("3".to_string()));
}

#[test]
fn empty_inputs_yield_empty_results() {
    let out = search(&"W".to_string(), &Vec::new(), Vec::new(), Vec::new());
    assert_eq!(out.len(), 0);
}

#[test]
fn rerank_overwrites_scores_and_resorts() {
    let a = row(1, "W", "/w/a.txt", "first text");
    let b = row(2, "W", "/w/b.txt", "second text");
    let fused = fuse_search_results(&"W".to_string(), &Vec::new(), vec![a, b], Vec::new());
    assert_eq!(fused[0].id, 1);
    // the re-ranker liked the second candidate better
    let keys = vec![10i64, 90i64];
    let reranked = apply_rerank(fused, &keys).unwrap();
    assert_eq!(reranked[0].id, 2);
    assert_eq!(reranked[0].score, Score::Reranked { key: 90 });
    assert_eq!(reranked[1].id, 1);
    assert_eq!(reranked[1].score, Score::Reranked { key: 10 });
}

#[test]
fn rerank_with_wrong_score_count_fails() {
    let a = row(1, "W", "/w/a.txt", "first text");
    let fused = fuse_search_results(&"W".to_string(), &Vec::new(), vec![a], Vec::new());
    let keys = vec![1i64, 2i64];
    assert!(matches!(apply_rerank(fused, &keys), Err(Error::RerankFailure)));
}

#[test]
fn quotes_are_doubled() {
    assert_eq!(escape_quotes("a'b"), "a''b");
    assert_eq!(escape_quotes("''"), "''''");
    assert_eq!(escape_quotes("plain"), "plain");
    assert_eq!(escape_quotes(""), "");
}

#[test]
fn filter_expression_embeds_escaped_values() {
    let plain = build_filter(&"W".to_string(), &Vec::new());
    assert_eq!(plain, "workspace_name == 'W'");

    let ctx = vec!["f'o.txt".to_string(), "b.txt".to_string()];
    let with_files = build_filter(&"A'B".to_string(), &ctx);
    assert_eq!(
        with_files,
        "workspace_name == 'A''B' AND file_name IN ('f''o.txt','b.txt')"
    );
}

#[test]
fn basename_cuts_after_last_separator() {
    assert_eq!(basename("/x/y/z.txt"), "z.txt");
    assert_eq!(basename("C:\\docs\\e.pdf"), "e.pdf");
    assert_eq!(basename("plain.txt"), "plain.txt");
    assert_eq!(basename("dir/"), "");
}

#[test]
fn verbatim_markers_are_removed() {
    assert_eq!(strip_verbatim_markers("\\\\?\\C:\\a.txt"), "C:\\a.txt");
    assert_eq!(strip_verbatim_markers("no markers"), "no markers");
    assert_eq!(strip_verbatim_markers("\\\\?\\x\\\\?\\y"), "xy");
}

#[test]
fn limit_defaults_to_thirty() {
    assert_eq!(effective_limit(None), 30);
    assert_eq!(effective_limit(Some(7)), 7);
}

#[test]
fn failed_text_search_degrades_to_empty() {
    let rows = vec![row(1, "W", "/w/a.txt", "text")];
    let ok = hybrid_search::search::text_results_or_empty(Ok(rows));
    assert_eq!(ok.len(), 1);
    let failed = hybrid_search::search::text_results_or_empty(Err(Error::EngineFailure));
    assert_eq!(failed.len(), 0);
}

#[test]
fn errors_describe_themselves() {
    assert!(!Error::DimensionMismatch.describe().is_empty());
    assert!(!Error::EngineFailure.describe().is_empty());
    assert!(!Error::FilterInjection.describe().is_empty());
    assert!(!Error::RerankFailure.describe().is_empty());
    assert!(!Error::ModelUnavailable.describe().is_empty());
}
