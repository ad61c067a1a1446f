use hybrid_search::record::EmbeddedChunk;
use hybrid_search::table::{Table, DEFAULT_VECTOR_DIMENSION};
use hybrid_search::Error;

fn chunk(file: &str, text: &str, vector: Vec<u32>) -> EmbeddedChunk {
    EmbeddedChunk {
        file_name: file.to_string(),
        page_number: None,
        text: text.to_string(),
        vector,
    }
}

#[test]
fn upsert_increases_row_count_by_batch_size() {
    let mut table = Table::new(3);
    assert_eq!(table.count_rows(), 0);
    let chunks = vec![
        chunk("/w/a.txt", "alpha", vec![1, 2, 3]),
        chunk("/w/b.txt", "beta", vec![4, 5, 6]),
    ];
    let r = table.upsert(&"W".to_string(), &"/w".to_string(), chunks);
    assert!(r.is_ok());
    assert_eq!(table.count_rows(), 2);
}

#[test]
fn upsert_assigns_unique_ids_across_batches() {
    let mut table = Table::new(2);
    let first = vec![
        chunk("/w/a.txt", "alpha", vec![1, 2]),
        chunk("/w/b.txt", "beta", vec![3, 4]),
    ];
    let second = vec![
        chunk("/w/c.txt", "gamma", vec![5, 6]),
        chunk("/w/d.txt", "delta", vec![7, 8]),
    ];
    table.upsert(&"W".to_string(), &"/w".to_string(), first).unwrap();
    table.upsert(&"W".to_string(), &"/w".to_string(), second).unwrap();
    let rows = table.workspace_rows(&"W".to_string(), &Vec::new());
    assert_eq!(rows.len(), 4);
    for i in 0..rows.len() {
        for j in 0..rows.len() {
            if i != j {
                assert_ne!(rows[i].id, rows[j].id);
            }
        }
    }
}

#[test]
fn default_dimension_table_accepts_full_width_vectors() {
    let mut table = Table::new(DEFAULT_VECTOR_DIMENSION);
    let chunks = vec![chunk("/w/a.txt", "alpha", vec![0; DEFAULT_VECTOR_DIMENSION])];
    assert!(table.upsert(&"W".to_string(), &"/w".to_string(), chunks).is_ok());
    let too_short = vec![chunk("/w/b.txt", "beta", vec![0; DEFAULT_VECTOR_DIMENSION - 1])];
    assert_eq!(
        table.upsert(&"W".to_string(), &"/w".to_string(), too_short),
        Err(Error::DimensionMismatch)
    );
    assert_eq!(table.count_rows(), 1);
}

#[test]
fn upsert_rejects_wrong_dimension_and_leaves_table_unchanged() {
    let mut table = Table::new(3);
    let good = vec![chunk("/w/a.txt", "alpha", vec![1, 2, 3])];
    table.upsert(&"W".to_string(), &"/w".to_string(), good).unwrap();
    assert_eq!(table.count_rows(), 1);

    let mixed = vec![
        chunk("/w/b.txt", "beta", vec![1, 2, 3]),
        chunk("/w/c.txt", "gamma", vec![1, 2]),
    ];
    let r = table.upsert(&"W".to_string(), &"/w".to_string(), mixed);
    assert_eq!(r, Err(Error::DimensionMismatch));
    assert_eq!(table.count_rows(), 1);
}

#[test]
fn upsert_tags_rows_with_workspace_and_strips_verbatim_markers() {
    let mut table = Table::new(1);
    let chunks = vec![chunk("\\\\?\\C:\\docs\\a.pdf", "alpha", vec![9])];
    table.upsert(&"W".to_string(), &"/w".to_string(), chunks).unwrap();
    let rows = table.workspace_rows(&"W".to_string(), &Vec::new());
    assert_eq!(rows.len(), 1);
    assert_eq!(rows[0].workspace_name, "W");
    assert_eq!(rows[0].workspace_path, "/w");
    assert_eq!(rows[0].file_name, "C:\\docs\\a.pdf");
    assert_eq!(rows[0].text, "alpha");
    assert_eq!(rows[0].vector, vec![9]);
}

#[test]
fn delete_workspace_removes_only_that_workspace() {
    let mut table = Table::new(1);
    table
        .upsert(&"A".to_string(), &"/a".to_string(), vec![chunk("/a/x.txt", "one", vec![1])])
        .unwrap();
    table
        .upsert(&"B".to_string(), &"/b".to_string(), vec![chunk("/b/y.txt", "two", vec![2])])
        .unwrap();
    table.delete_workspace(&"A".to_string());
    assert_eq!(table.count_rows(), 1);
    let a_rows = table.workspace_rows(&"A".to_string(), &Vec::new());
    let b_rows = table.workspace_rows(&"B".to_string(), &Vec::new());
    assert_eq!(a_rows.len(), 0);
    assert_eq!(b_rows.len(), 1);
    assert_eq!(b_rows[0].text, "two");
}

#[test]
fn delete_file_removes_only_that_files_rows() {
    let mut table = Table::new(1);
    let chunks = vec![
        chunk("/w/a.txt", "one", vec![1]),
        chunk("/w/a.txt", "two", vec![2]),
        chunk("/w/b.txt", "three", vec![3]),
    ];
    table.upsert(&"W".to_string(), &"/w".to_string(), chunks).unwrap();
    table.delete_file(&"W".to_string(), &"/w/a.txt".to_string());
    let rows = table.workspace_rows(&"W".to_string(), &Vec::new());
    assert_eq!(rows.len(), 1);
    assert_eq!(rows[0].file_name, "/w/b.txt");
}

#[test]
fn workspace_rows_honours_context_file_filter() {
    let mut table = Table::new(1);
    let chunks = vec![
        chunk("/w/a.txt", "one", vec![1]),
        chunk("/w/b.txt", "two", vec![2]),
    ];
    table.upsert(&"W".to_string(), &"/w".to_string(), chunks).unwrap();
    let ctx = vec!["/w/b.txt".to_string()];
    let rows = table.workspace_rows(&"W".to_string(), &ctx);
    assert_eq!(rows.len(), 1);
    assert_eq!(rows[0].text, "two");
}
