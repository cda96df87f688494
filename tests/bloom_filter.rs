use get_training_data::bloom::{Config, Filter, FilterError};

fn config(secs: u64) -> Config {
    Config { dir: String::from("filter"), checkpoint_secs: secs, bytes: 1024, expected_entries: 100 }
}

fn lines_of(steps: &[String]) -> Vec<String> {
    steps.iter().map(|l| l.trim_end_matches('\n').to_string()).collect()
}

#[test]
fn fresh_filter_is_empty() {
    let o = Filter::new(&config(60), None, &vec![], 0).ok().unwrap();
    assert!(o.checkpoint.is_none());
    assert!(!o.filter.check(7));
}

#[test]
fn set_then_check() {
    let mut f = Filter::new(&config(60), None, &vec![], 0).ok().unwrap().filter;
    let step = f.set(42, 1);
    assert_eq!(step.wal_line, "42\n");
    assert!(step.checkpoint.is_none());
    assert!(f.check(42));
}

#[test]
fn recovery_from_wal_before_checkpoint() {
    let mut f = Filter::new(&config(3600), None, &vec![], 0).ok().unwrap().filter;
    let mut wal = vec![];
    for fp in [7u64, 8, 9] {
        let step = f.set(fp, 1);
        assert!(step.checkpoint.is_none());
        wal.push(step.wal_line);
    }
    let lines = lines_of(&wal);
    let o = Filter::new(&config(3600), None, &lines, 2).ok().unwrap();
    assert!(o.filter.check(7) && o.filter.check(8) && o.filter.check(9));
    // the replay is checkpointed at once, after which the log starts empty
    assert!(o.checkpoint.is_some());
}

#[test]
fn recovery_from_checkpoint() {
    let mut f = Filter::new(&config(10), None, &vec![], 0).ok().unwrap().filter;
    let step = f.set(123456789, 100);
    let image = step.checkpoint.expect("checkpoint due after the interval");
    let o = Filter::new(&config(10), Some(image), &vec![], 200).ok().unwrap();
    assert!(o.filter.check(123456789));
    assert!(o.checkpoint.is_none());
}

#[test]
fn checkpoint_not_due_within_interval() {
    let mut f = Filter::new(&config(10), None, &vec![], 100).ok().unwrap().filter;
    assert!(f.set(1, 110).checkpoint.is_none());
    assert!(f.set(2, 111).checkpoint.is_some());
}

#[test]
fn bad_wal_lines_are_skipped() {
    let lines = vec![
        String::from("abc"),
        String::from(""),
        String::from("18446744073709551616"),
        String::from("18446744073709551615"),
        String::from("5"),
    ];
    let o = Filter::new(&config(60), None, &lines, 0).ok().unwrap();
    assert!(o.filter.check(18446744073709551615));
    assert!(o.filter.check(5));
    assert!(o.checkpoint.is_some());
}

#[test]
fn zero_size_is_refused() {
    let mut c = config(60);
    c.bytes = 0;
    assert_eq!(Filter::new(&c, None, &vec![], 0).err(), Some(FilterError::Size));
    let mut c = config(60);
    c.expected_entries = 0;
    assert_eq!(Filter::new(&c, None, &vec![], 0).err(), Some(FilterError::Size));
}

#[test]
fn corrupt_checkpoint_is_refused() {
    let r = Filter::new(&config(60), Some(vec![1, 2, 3]), &vec![], 0);
    assert_eq!(r.err(), Some(FilterError::Decode));
}

#[test]
fn checkpoint_with_short_storage_is_refused() {
    let mut f = Filter::new(&config(0), None, &vec![], 0).ok().unwrap().filter;
    let mut image = f.set(1, 5).checkpoint.unwrap();
    // The bit vector is encoded as its block count, its blocks, then its
    // length in bits; a larger length than the blocks hold must be refused.
    let original = image.clone();
    let o = Filter::new(&config(0), Some(original), &vec![], 0).ok().unwrap();
    assert!(o.filter.check(1));
    let blocks = u64::from_le_bytes(image[0..8].try_into().unwrap()) as usize;
    let at = 8 + 4 * blocks;
    let nbits = u64::from_le_bytes(image[at..at + 8].try_into().unwrap());
    image[at..at + 8].copy_from_slice(&(nbits * 4).to_le_bytes());
    let r = Filter::new(&config(0), Some(image), &vec!["1".to_string()], 0);
    assert_eq!(r.err(), Some(FilterError::Decode));
}

#[test]
fn checkpoint_after_replay_reports_the_same() {
    let lines = vec!["not-a-number".to_string(), "42".to_string(), "12345678901234567890".to_string()];
    let o = Filter::new(&config(60), None, &lines, 0).ok().unwrap();
    assert!(o.filter.check(42) && o.filter.check(12345678901234567890));
    let image = o.checkpoint.unwrap();
    let again = Filter::new(&config(60), Some(image), &vec![], 1).ok().unwrap();
    assert!(again.filter.check(42) && again.filter.check(12345678901234567890));
}
