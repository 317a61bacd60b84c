use std::collections::HashMap;
use std::sync::{Arc, Mutex};

use counter_registry::decimal::decimal_string;
use counter_registry::export::{encode_table, records_text, saved_message, table_csv, ExportError};
use counter_registry::generator::{draw, label_key, DRAW_MAX, DRAW_MIN};
use counter_registry::registry::CounterRegistry;
use counter_registry::table::CountTable;

fn as_map(t: &CountTable) -> HashMap<String, u32> {
    let mut m = HashMap::new();
    for i in 0..t.len() {
        let (k, c) = t.entry(i);
        assert!(m.insert(k.clone(), c).is_none(), "duplicate key {}", k);
    }
    m
}

fn expected(pairs: &[(&str, u32)]) -> HashMap<String, u32> {
    pairs.iter().map(|(k, c)| (k.to_string(), *c)).collect()
}

fn label_sum(m: &HashMap<String, u32>) -> u64 {
    (1..=10).map(|n| *m.get(&format!("Number {}", n)).unwrap_or(&0) as u64).sum()
}

fn runtime() -> tokio::runtime::Runtime {
    tokio::runtime::Builder::new_multi_thread().worker_threads(4).build().unwrap()
}

#[test]
fn apple_banana_scenario() {
    let mut reg = CounterRegistry::new();
    assert_eq!(as_map(&reg.increment("apple".to_string())), expected(&[("apple", 1)]));
    assert_eq!(as_map(&reg.increment("apple".to_string())), expected(&[("apple", 2)]));
    let after = reg.increment("banana".to_string());
    assert_eq!(as_map(&after), expected(&[("apple", 2), ("banana", 1)]));
    assert_eq!(as_map(&reg.snapshot()), expected(&[("apple", 2), ("banana", 1)]));
    let text = reg.export_csv().unwrap();
    assert_eq!(text, "apple,2\nbanana,1\n");
}

#[test]
fn first_increment_is_one_second_is_two() {
    let mut t = CountTable::new();
    assert_eq!(t.get(&"w".to_string()), None);
    t.increment("w".to_string());
    assert_eq!(t.get(&"w".to_string()), Some(1));
    t.increment("w".to_string());
    assert_eq!(t.get(&"w".to_string()), Some(2));
    assert_eq!(t.len(), 1);
}

#[test]
fn increment_keeps_other_keys() {
    let mut t = CountTable::new();
    t.increment("a".to_string());
    t.increment("b".to_string());
    t.increment("a".to_string());
    assert_eq!(as_map(&t), expected(&[("a", 2), ("b", 1)]));
}

#[test]
fn concurrent_increments_lose_nothing() {
    let reg = Arc::new(Mutex::new(CounterRegistry::new()));
    let rt = runtime();
    let tasks: u32 = 8;
    let per_task: u32 = 500;
    let mut handles = Vec::new();
    for t in 0..tasks {
        let reg = reg.clone();
        handles.push(rt.spawn_blocking(move || {
            for _ in 0..per_task {
                reg.lock().unwrap().increment("k".to_string());
                reg.lock().unwrap().increment(format!("own {}", t));
            }
        }));
    }
    for h in handles {
        rt.block_on(h).unwrap();
    }
    let m = as_map(&reg.lock().unwrap().snapshot());
    assert_eq!(m.get("k"), Some(&(tasks * per_task)));
    for t in 0..tasks {
        assert_eq!(m.get(&format!("own {}", t)), Some(&per_task));
    }
}

#[test]
fn zero_concurrent_increments_leave_key_absent() {
    let reg = CounterRegistry::new();
    assert_eq!(as_map(&reg.snapshot()), HashMap::new());
}

#[test]
fn snapshots_see_whole_increments() {
    let reg = Arc::new(Mutex::new(CounterRegistry::new()));
    let rt = runtime();
    let n: u32 = 2000;
    let writer = {
        let reg = reg.clone();
        rt.spawn_blocking(move || {
            for _ in 0..n {
                reg.lock().unwrap().increment("x".to_string());
            }
        })
    };
    let reader = {
        let reg = reg.clone();
        rt.spawn_blocking(move || {
            let mut last = 0u32;
            for _ in 0..n {
                let m = as_map(&reg.lock().unwrap().snapshot());
                let c = *m.get("x").unwrap_or(&0);
                assert!(c >= last && c <= n);
                last = c;
            }
        })
    };
    rt.block_on(writer).unwrap();
    rt.block_on(reader).unwrap();
    assert_eq!(as_map(&reg.lock().unwrap().snapshot()).get("x"), Some(&n));
}

#[test]
fn export_of_empty_registry_has_no_records() {
    let reg = CounterRegistry::new();
    let text = reg.export_csv().unwrap();
    assert_eq!(text, "");
    assert_eq!(encode_table(&CountTable::new()).unwrap(), Vec::<u8>::new());
}

#[test]
fn export_quotes_commas_and_quotes() {
    let mut reg = CounterRegistry::new();
    reg.increment("a,b".to_string());
    reg.increment("say \"hi\"".to_string());
    reg.increment("say \"hi\"".to_string());
    reg.increment("two\nlines".to_string());
    let text = reg.export_csv().unwrap();
    assert_eq!(text, "\"a,b\",1\n\"say \"\"hi\"\"\",2\n\"two\nlines\",1\n");
    let mut rdr = csv::ReaderBuilder::new().has_headers(false).from_reader(text.as_bytes());
    let mut got = HashMap::new();
    for rec in rdr.records() {
        let rec = rec.unwrap();
        assert_eq!(rec.len(), 2);
        got.insert(rec[0].to_string(), rec[1].parse::<u32>().unwrap());
    }
    assert_eq!(got, expected(&[("a,b", 1), ("say \"hi\"", 2), ("two\nlines", 1)]));
}

#[test]
fn encode_table_writes_records_in_order() {
    let mut t = CountTable::new();
    t.increment("apple".to_string());
    t.increment("apple".to_string());
    t.increment("banana".to_string());
    let b = encode_table(&t).unwrap();
    assert_eq!(String::from_utf8(b).unwrap(), "apple,2\nbanana,1\n");
    assert_eq!(table_csv(&t).unwrap(), "apple,2\nbanana,1\n");
}

#[test]
fn records_text_rejects_invalid_utf8() {
    assert!(matches!(records_text(vec![0x61, 0xff, 0x62]), Err(ExportError::Text(_))));
    assert_eq!(records_text(b"k,1\n".to_vec()).unwrap(), "k,1\n");
}

#[test]
fn saved_message_names_path() {
    assert_eq!(saved_message("hash_map_data.csv"), "Data saved to hash_map_data.csv");
}

#[test]
fn decimal_string_values() {
    assert_eq!(decimal_string(0), "0");
    assert_eq!(decimal_string(7), "7");
    assert_eq!(decimal_string(10), "10");
    assert_eq!(decimal_string(4294967295), "4294967295");
}

#[test]
fn label_keys() {
    assert_eq!(label_key(1), "Number 1");
    assert_eq!(label_key(10), "Number 10");
}

#[test]
fn draws_stay_in_range_and_cover_it() {
    let mut seen = [false; 11];
    for _ in 0..2000 {
        let n = draw();
        assert!(n >= DRAW_MIN && n <= DRAW_MAX);
        seen[n as usize] = true;
    }
    assert!(seen[1..].iter().all(|s| *s));
}

#[test]
fn record_draw_increments_its_label() {
    let mut t = CountTable::new();
    t.record_draw(3);
    t.record_draw(10);
    t.record_draw(3);
    assert_eq!(as_map(&t), expected(&[("Number 3", 2), ("Number 10", 1)]));
}

#[test]
fn generator_ticks_add_one_each_and_never_lower_counts() {
    let reg = Arc::new(Mutex::new(CounterRegistry::new()));
    reg.lock().unwrap().increment("apple".to_string());
    reg.lock().unwrap().increment("Number 4".to_string());
    let before = as_map(&reg.lock().unwrap().snapshot());
    let rt = runtime();
    let k: u32 = 3;
    let m: u32 = 50;
    let mut handles = Vec::new();
    for _ in 0..k {
        let reg = reg.clone();
        handles.push(rt.spawn_blocking(move || {
            for _ in 0..m {
                let n = reg.lock().unwrap().generator_tick();
                assert!(n >= 1 && n <= 10);
            }
        }));
    }
    for h in handles {
        rt.block_on(h).unwrap();
    }
    let after = as_map(&reg.lock().unwrap().snapshot());
    assert_eq!(label_sum(&after), label_sum(&before) + (k * m) as u64);
    for (key, c) in &before {
        assert!(after[key] >= *c);
    }
    assert_eq!(after["apple"], 1);
}

#[test]
fn increment_returns_whole_table() {
    let mut reg = CounterRegistry::new();
    reg.increment("x".to_string());
    let r = reg.increment("y".to_string());
    assert_eq!(as_map(&r), as_map(&reg.snapshot()));
    assert_eq!(as_map(&r), expected(&[("x", 1), ("y", 1)]));
}

#[test]
fn generator_tick_changes_only_its_label() {
    let mut reg = CounterRegistry::new();
    reg.increment("apple".to_string());
    let n = reg.generator_tick();
    let m = as_map(&reg.snapshot());
    let key = format!("Number {}", n);
    assert_eq!(m.get(&key), Some(&1));
    assert_eq!(m.get("apple"), Some(&1));
    assert_eq!(m.len(), 2);
}
