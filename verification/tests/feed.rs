use mgrs::feed::ColumnFeed;
use mgrs::stream::{ColumnSpec, StreamError};

fn strings(v: &[&str]) -> Vec<String> {
    v.iter().map(|s| s.to_string()).collect()
}

/// Every record offered to `feed`, with the column it was handed out with, in order.
fn run(mut feed: ColumnFeed, records: &[Vec<String>]) -> Result<Vec<(usize, Vec<String>)>, StreamError> {
    let mut out = Vec::new();
    for r in records {
        let batch = feed.offer(r.clone())?;
        for b in batch {
            out.push((feed.column().unwrap(), b));
        }
    }
    let (c, rest) = feed.finish()?;
    for b in rest {
        out.push((c, b));
    }
    Ok(out)
}

fn records(n: usize) -> Vec<Vec<String>> {
    (0..n).map(|i| strings(&[&format!("site {}", i), "18SUJ2337006519"])).collect()
}

#[test]
fn detected_column_runs_as_the_given_index() {
    let headers = strings(&["Name", "Grid"]);
    for n in [1usize, 5, 99, 100, 101, 250] {
        let rs = records(n);
        let auto = run(ColumnFeed::new(&headers, &None).unwrap(), &rs).unwrap();
        let given = run(ColumnFeed::new(&headers, &Some(ColumnSpec::Index(1))).unwrap(), &rs).unwrap();
        assert_eq!(auto, given);
        assert_eq!(auto.len(), n);
        assert!(auto.iter().zip(rs.iter()).all(|((c, r), s)| *c == 1 && r == s));
    }
}

#[test]
fn detection_holds_back_the_first_hundred_records() {
    let headers = strings(&["Name", "Grid"]);
    let mut feed = ColumnFeed::new(&headers, &None).unwrap();
    let rs = records(101);
    for r in &rs[..99] {
        assert!(feed.offer(r.clone()).unwrap().is_empty());
        assert!(feed.column().is_none());
    }
    assert_eq!(feed.offer(rs[99].clone()).unwrap().len(), 100);
    assert_eq!(feed.column(), Some(1));
    assert_eq!(feed.offer(rs[100].clone()).unwrap(), vec![rs[100].clone()]);
}

#[test]
fn feed_without_mgrs_column_fails() {
    let headers = strings(&["Name"]);
    let rs: Vec<Vec<String>> = (0..3).map(|i| strings(&[&format!("x{}", i)])).collect();
    assert!(matches!(run(ColumnFeed::new(&headers, &None).unwrap(), &rs), Err(StreamError::NoMgrsColumn)));
    assert!(matches!(run(ColumnFeed::new(&headers, &None).unwrap(), &[]), Err(StreamError::NoMgrsColumn)));
    let many: Vec<Vec<String>> = (0..100).map(|i| strings(&[&format!("x{}", i)])).collect();
    let mut feed = ColumnFeed::new(&headers, &None).unwrap();
    for r in &many[..99] {
        assert!(feed.offer(r.clone()).is_ok());
    }
    assert!(matches!(feed.offer(many[99].clone()), Err(StreamError::NoMgrsColumn)));
}

#[test]
fn feed_by_name_and_missing_name() {
    let headers = strings(&["Name", "Grid"]);
    let feed = ColumnFeed::new(&headers, &Some(ColumnSpec::Name("Grid".to_string()))).unwrap();
    assert_eq!(feed.column(), Some(1));
    assert!(matches!(
        ColumnFeed::new(&headers, &Some(ColumnSpec::Name("Nope".to_string()))),
        Err(StreamError::ColumnNotFound(n)) if n == "Nope"
    ));
}
