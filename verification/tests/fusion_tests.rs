use hybrid_search::record::{Record, Score};
use hybrid_search::search::{fuse_search_results, search};
use hybrid_search::table::Table;
use hybrid_search::record::EmbeddedChunk;

fn row(id: u128, workspace: &str, file: &str, text: &str) -> Record {
    Record {
        id,
        workspace_name: workspace.to_string(),
        workspace_path: format!("/{}", workspace),
        file_name: file.to_string(),
        page_number: None,
        text: text.to_string(),
        vector: Vec::new(),
    }
}

/// Fusion determinism: vector results [v1, v2, v3] at ranks 1..3 and text
/// results [t1, t2] at ranks 1..2, where t1 is the same row as v2. The
/// shared row's score is exactly 1/(2+60) + 1/(1+60) = 123/3782; every other
/// row keeps its single contribution, and the output is ordered by score.
#[test]
fn rrf_scores_are_exact_and_descending() {
    let v1 = row(1, "W", "/w/a.txt", "text one");
    let v2 = row(2, "W", "/w/b.txt", "text two");
    let v3 = row(3, "W", "/w/c.txt", "text three");
    let t1 = row(2, "W", "/w/b.txt", "text two");
    let t2 = row(5, "W", "/w/e.txt", "text five");

    let out = fuse_search_results(
        &"W".to_string(),
        &Vec::new(),
        vec![v1, v2, v3],
        vec![t1, t2],
    );

    assert_eq!(out.len(), 4);
    // 1/62 + 1/61 = 123/3782 beats every single contribution
    assert_eq!(out[0].id, 2);
    assert_eq!(out[0].score, Score::Fused { num: 123, den: 3782 });
    // then 1/61, 1/62, 1/63
    assert_eq!(out[1].id, 1);
    assert_eq!(out[1].score, Score::Fused { num: 1, den: 61 });
    assert_eq!(out[2].id, 5);
    assert_eq!(out[2].score, Score::Fused { num: 1, den: 62 });
    assert_eq!(out[3].id, 3);
    assert_eq!(out[3].score, Score::Fused { num: 1, den: 63 });
}

/// Two rows with identical text but different ids collapse to the first by
/// scan order before fusion.
#[test]
fn duplicate_texts_collapse_to_first_occurrence() {
    let a = row(10, "W", "/w/a.txt", "same words");
    let b = row(11, "W", "/w/b.txt", "same words");
    let c = row(12, "W", "/w/c.txt", "other words");

    let out = fuse_search_results(&"W".to_string(), &Vec::new(), vec![a, b, c], Vec::new());

    assert_eq!(out.len(), 2);
    assert_eq!(out[0].id, 10);
    assert_eq!(out[0].score, Score::Fused { num: 1, den: 61 });
    // the duplicate did not take rank 2; the next distinct text did
    assert_eq!(out[1].id, 12);
    assert_eq!(out[1].score, Score::Fused { num: 1, den: 62 });
}

/// A row seen only by the full-text query still gets a fused score and a
/// place in the results: fusion is a union, not an intersection.
#[test]
fn text_only_rows_are_fused_in() {
    let v = row(1, "W", "/w/a.txt", "vector text");
    let t = row(2, "W", "/w/b.txt", "full text only");

    let out = fuse_search_results(&"W".to_string(), &Vec::new(), vec![v], vec![t]);

    assert_eq!(out.len(), 2);
    // both hold rank 1 in their list: 1/61 each; ties keep encountered
    // order, vector results first
    assert_eq!(out[0].id, 1);
    assert_eq!(out[1].id, 2);
    assert_eq!(out[0].score, Score::Fused { num: 1, den: 61 });
    assert_eq!(out[1].score, Score::Fused { num: 1, den: 61 });
}

fn dot(a: &[f32], b: &[f32]) -> f32 {
    a.iter().zip(b.iter()).map(|(x, y)| x * y).sum()
}

fn cosine_distance(a: &[f32], b: &[f32]) -> f32 {
    1.0 - dot(a, b) / (dot(a, a).sqrt() * dot(b, b).sqrt())
}

/// End to end: two long chunks in one workspace; a vector query close to the
/// first chunk ranks it above the second.
#[test]
fn closer_vector_ranks_first() {
    let mut table = Table::new(2);
    let text1 = "alpha ".repeat(60); // 360 characters
    let text2 = "omega ".repeat(60);
    let chunks = vec![
        EmbeddedChunk {
            file_name: "/w/a.txt".to_string(),
            page_number: None,
            text: text1.clone(),
            vector: vec![1.0f32.to_bits(), 0.0f32.to_bits()],
        },
        EmbeddedChunk {
            file_name: "/w/b.txt".to_string(),
            page_number: None,
            text: text2.clone(),
            vector: vec![0.0f32.to_bits(), 1.0f32.to_bits()],
        },
    ];
    table.upsert(&"W".to_string(), &"/w".to_string(), chunks).unwrap();

    // the engine's part, played here: rank workspace rows by cosine distance
    let query = [0.9f32, 0.1f32];
    let mut rows = table.workspace_rows(&"W".to_string(), &Vec::new());
    rows.sort_by(|a, b| {
        let da = cosine_distance(
            &a.vector.iter().map(|v| f32::from_bits(*v)).collect::<Vec<_>>(),
            &query,
        );
        let db = cosine_distance(
            &b.vector.iter().map(|v| f32::from_bits(*v)).collect::<Vec<_>>(),
            &query,
        );
        da.partial_cmp(&db).unwrap()
    });
    assert_eq!(rows[0].text, text1);

    let out = search(&"W".to_string(), &Vec::new(), rows, Vec::new());
    assert_eq!(out.len(), 2);
    assert_eq!(out[0].text, text1);
    assert_eq!(out[1].text, text2);
}
