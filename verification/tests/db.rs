use omitfs::db::{
    delete_predicate, over_limit, schema, table_name, without_chunks, ColumnType, SearchResults,
    VEC_DIM,
};
use omitfs::reranker::Row;

fn row(name: &str, path: &str, chunk: &str) -> Row {
    (name.into(), path.into(), chunk.into())
}

fn search(limit: usize, rows: &[Row]) -> Vec<Row> {
    let mut results = SearchResults::new(limit);
    for r in rows {
        results.push(r.clone());
    }
    results.finish()
}

fn sample() -> Vec<Row> {
    vec![
        row("a", "/a", "1"),
        row("b", "/b", "2"),
        row("a", "/a", "3"),
        row("c", "/c", "4"),
        row("b", "/b", "5"),
        row("d", "/d", "6"),
    ]
}

#[test]
fn the_table_has_its_columns() {
    assert_eq!(table_name(), "files_v2");
    let columns = schema();
    let names: Vec<&str> = columns.iter().map(|c| c.name).collect();
    assert_eq!(names, ["file_id", "filename", "physical_path", "chunk_text", "vector"]);
    assert!(columns[..4].iter().all(|c| c.kind == ColumnType::Utf8));
    assert_eq!(columns[4].kind, ColumnType::Vector(VEC_DIM));
    assert_eq!(VEC_DIM, 384);
}

#[test]
fn paths_are_quoted_in_predicates() {
    assert_eq!(delete_predicate("/raw/a.txt"), "physical_path = '/raw/a.txt'");
    assert_eq!(delete_predicate("it's"), "physical_path = 'it''s'");
    assert_eq!(delete_predicate("''"), "physical_path = ''''''");
    assert_eq!(delete_predicate(""), "physical_path = ''");
}

#[test]
fn different_paths_have_different_predicates() {
    let paths = ["", "'", "''", "a'b", "a''b", "it's 'quoted'"];
    for (i, a) in paths.iter().enumerate() {
        for b in &paths[i + 1..] {
            assert_ne!(delete_predicate(a), delete_predicate(b));
        }
    }
}

#[test]
fn more_rows_are_asked_for_than_results() {
    assert_eq!(over_limit(10, 5), 50);
    assert_eq!(over_limit(0, 5), 0);
}

#[test]
fn the_first_row_of_each_file_is_kept() {
    assert_eq!(
        search(10, &sample()),
        [row("a", "/a", "1"), row("b", "/b", "2"), row("c", "/c", "4"), row("d", "/d", "6")]
    );
}

#[test]
fn there_are_no_more_results_than_asked_for() {
    assert_eq!(search(2, &sample()), [row("a", "/a", "1"), row("b", "/b", "2")]);
    assert_eq!(search(0, &sample()), []);
    assert_eq!(search(3, &[]), []);
}

#[test]
fn files_are_told_apart_by_their_paths() {
    let rows = [row("same", "/x", "1"), row("same", "/y", "2")];
    assert_eq!(search(5, &rows), rows);
}

#[test]
fn a_full_search_may_stop() {
    let rows = sample();
    let mut early = SearchResults::new(2);
    for r in &rows {
        if early.is_full() {
            break;
        }
        early.push(r.clone());
    }
    assert!(early.is_full());
    assert_eq!(early.finish(), search(2, &rows));
    assert!(!SearchResults::new(1).is_full());
    assert!(SearchResults::new(0).is_full());
}

#[test]
fn results_without_their_chunks() {
    assert_eq!(
        without_chunks(&sample()[..2].to_vec()),
        [("a".to_string(), "/a".to_string()), ("b".to_string(), "/b".to_string())]
    );
}
