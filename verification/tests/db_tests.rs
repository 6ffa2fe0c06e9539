use blackholed::db::{batch_bounds, dedup_hosts, upsert_hosts_sql, DbDriver};
use blackholed::model::{HostDisposition, SourceHost};

fn host(name: &str, source_id: &str, d: HostDisposition) -> SourceHost {
    SourceHost { name: name.to_string(), source_id: source_id.to_string(), disposition: d, created_at: 1, updated_at: 2 }
}

#[test]
fn dedup_keeps_first_of_each_row() {
    let hosts = vec![
        host("a.com.", "s1", HostDisposition::Block),
        host("a.com.", "s2", HostDisposition::Block),
        host("a.com.", "s1", HostDisposition::Allow),
        host("b.com.", "s1", HostDisposition::Block),
        host("b.com.", "s1", HostDisposition::Allow),
    ];
    let kept = dedup_hosts(&hosts);
    let rows: Vec<_> = kept.iter().map(|h| (h.name.as_str(), h.source_id.as_str(), h.disposition)).collect();
    assert_eq!(
        rows,
        vec![
            ("a.com.", "s1", HostDisposition::Block),
            ("a.com.", "s2", HostDisposition::Block),
            ("b.com.", "s1", HostDisposition::Block),
        ]
    );
}

#[test]
fn dedup_tells_rows_apart_exactly() {
    let hosts = vec![
        host("0b", "a\\", HostDisposition::Block),
        host("b", "a\\\\0", HostDisposition::Block),
        host("0b", "a\\", HostDisposition::Allow),
    ];
    assert_eq!(dedup_hosts(&hosts).len(), 2);
    assert!(dedup_hosts(&Vec::new()).is_empty());
}

#[test]
fn batches_of_one_hundred() {
    assert_eq!(batch_bounds(0), vec![]);
    assert_eq!(batch_bounds(100), vec![(0, 100)]);
    assert_eq!(batch_bounds(250), vec![(0, 100), (100, 200), (200, 250)]);
    assert_eq!(batch_bounds(1), vec![(0, 1)]);
}

#[test]
fn upsert_statements() {
    assert_eq!(
        upsert_hosts_sql(DbDriver::Sqlite, 2),
        "INSERT INTO host (name, source_id, disposition, created_at, updated_at) VALUES (?, ?, ?, ?, ?), (?, ?, ?, ?, ?) ON CONFLICT(name, source_id) DO UPDATE SET disposition = excluded.disposition, updated_at = excluded.updated_at"
    );
    assert_eq!(
        upsert_hosts_sql(DbDriver::Postgres, 3),
        "INSERT INTO host (name, source_id, disposition, created_at, updated_at) VALUES ($1, $2, $3, $4, $5), ($6, $7, $8, $9, $10), ($11, $12, $13, $14, $15) ON CONFLICT(name, source_id) DO UPDATE SET disposition = excluded.disposition, updated_at = excluded.updated_at"
    );
}
