use epd_fontgen::error::BuildError;
use epd_fontgen::index::{compile, lookup, sort_dedup, CharRange};

#[test]
fn minimal_ranges_for_sparse_alphabet() {
    let chars = vec![1u32, 2, 3, 7, 8, 10];
    let table = compile(&chars).unwrap();
    assert_eq!(
        table,
        vec![
            CharRange { start: 1, length: 3, base: 0 },
            CharRange { start: 7, length: 2, base: 3 },
            CharRange { start: 10, length: 1, base: 5 },
        ]
    );
    assert_eq!(lookup(&table, 2), Some(1));
    assert_eq!(lookup(&table, 8), Some(4));
    assert_eq!(lookup(&table, 9), None);
    assert_eq!(lookup(&table, 10), Some(5));
}

#[test]
fn single_character_alphabet() {
    let chars = vec![65u32];
    let table = compile(&chars).unwrap();
    assert_eq!(table, vec![CharRange { start: 65, length: 1, base: 0 }]);
    assert_eq!(lookup(&table, 65), Some(0));
    assert_eq!(lookup(&table, 64), None);
    assert_eq!(lookup(&table, 66), None);
}

#[test]
fn empty_alphabet_is_refused() {
    let chars: Vec<u32> = Vec::new();
    let r = compile(&chars);
    assert!(matches!(r, Err(BuildError::EmptyAlphabet)));
}

#[test]
fn fully_contiguous_alphabet_is_one_range() {
    let chars = vec![40u32, 41, 42, 43];
    let table = compile(&chars).unwrap();
    assert_eq!(table, vec![CharRange { start: 40, length: 4, base: 0 }]);
}

#[test]
fn sort_dedup_orders_and_removes_duplicates() {
    let input = vec![98u32, 100, 97, 98];
    assert_eq!(sort_dedup(&input), vec![97u32, 98, 100]);
    let empty: Vec<u32> = Vec::new();
    assert_eq!(sort_dedup(&empty), Vec::<u32>::new());
}

#[test]
fn subset_order_does_not_matter() {
    // the characters of "bda", in the order they appear
    let input = vec!['b' as u32, 'd' as u32, 'a' as u32];
    let sorted = sort_dedup(&input);
    assert_eq!(sorted, vec![97u32, 98, 100]);
    let table = compile(&sorted).unwrap();
    assert_eq!(
        table,
        vec![
            CharRange { start: 97, length: 2, base: 0 },
            CharRange { start: 100, length: 1, base: 2 },
        ]
    );
    assert_eq!(lookup(&table, 'a' as u32), Some(0));
    assert_eq!(lookup(&table, 'b' as u32), Some(1));
    assert_eq!(lookup(&table, 'd' as u32), Some(2));
    assert_eq!(lookup(&table, 'c' as u32), None);
}
