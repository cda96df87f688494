use get_training_data::crawl::frontier_key;
use get_training_data::save::{chunk_file, first_chunk, Config, Saver, SaverStep};
use get_training_data::text::{parse_u64, push_decimal, replace_nbsp, trim};

fn chars(s: &str) -> Vec<char> {
    s.chars().collect()
}

#[test]
fn decimal_round_trip() {
    for n in [0u64, 7, 10, 99, 1234567890123456789, u64::MAX] {
        let mut v = vec![];
        push_decimal(n, &mut v);
        assert_eq!(v.iter().collect::<String>(), n.to_string());
        assert_eq!(parse_u64(&v), Some(n));
    }
}

#[test]
fn parse_rejects_non_numbers() {
    assert_eq!(parse_u64(&chars("")), None);
    assert_eq!(parse_u64(&chars("12a")), None);
    assert_eq!(parse_u64(&chars("-1")), None);
    assert_eq!(parse_u64(&chars("18446744073709551616")), None);
    assert_eq!(parse_u64(&chars("007")), Some(7));
}

#[test]
fn trim_and_nbsp() {
    assert_eq!(trim(&chars("  a b \n")), chars("a b"));
    assert_eq!(trim(&chars(" \t ")), chars(""));
    assert_eq!(trim(&chars("\u{a0}x\u{a0}y\u{a0}")), chars("x\u{a0}y"));
    assert_eq!(replace_nbsp(&chars("x\u{a0}y")), chars("x y"));
}

#[test]
fn saver_chunking() {
    let mut s = Saver::new(Config { check_interval_secs: 5, chunk_size: 3, start_chunk: 1 }, 0);
    for _ in 0..7 {
        s.add();
    }
    assert_eq!(s.run(), SaverStep::Write { chunk: 1, count: 3 });
    assert_eq!(s.run(), SaverStep::Write { chunk: 2, count: 3 });
    assert_eq!(s.run(), SaverStep::Wait(5));
    s.add();
    s.add();
    assert_eq!(s.run(), SaverStep::Write { chunk: 3, count: 3 });
}

#[test]
fn saver_counts_buffer_at_start() {
    let mut s = Saver::new(Config { check_interval_secs: 1, chunk_size: 2, start_chunk: first_chunk(4) }, 2);
    assert_eq!(s.run(), SaverStep::Write { chunk: 5, count: 2 });
    assert_eq!(s.run(), SaverStep::Wait(1));
}

#[test]
fn chunk_file_names() {
    assert_eq!(chunk_file("out", 1), "out/1.json");
    assert_eq!(chunk_file("/data/save", 42), "/data/save/42.json");
}

#[test]
fn frontier_keys_sort_by_id() {
    assert_eq!(frontier_key(1), vec![0, 0, 0, 0, 0, 0, 0, 1]);
    assert_eq!(frontier_key(0x0102030405060708), vec![1, 2, 3, 4, 5, 6, 7, 8]);
    let mut keys = vec![frontier_key(300), frontier_key(2), frontier_key(256), frontier_key(1)];
    keys.sort();
    assert_eq!(keys, vec![frontier_key(1), frontier_key(2), frontier_key(256), frontier_key(300)]);
}
