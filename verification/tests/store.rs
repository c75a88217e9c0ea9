use typing_tui::text::{chars_of, join_words};
use typing_tui::wordset::{
    non_empty_lines, seed_rng, shuffle, shuffled_words, WordFile, WordsetDb, WordsetError,
};

fn file(name: &str, language: &str, content: &str) -> WordFile {
    WordFile { name: name.to_string(), language: language.to_string(), content: content.to_string() }
}

#[test]
fn generator_steps() {
    let mut rng = seed_rng(1);
    assert_eq!(rng.next(), 16838);
    let mut a = seed_rng(99);
    let mut b = seed_rng(99);
    assert_eq!(a.next(), b.next());
    assert_eq!(a.next(), b.next());
}

#[test]
fn shuffle_from_seed() {
    let mut v = vec![1, 2, 3, 4, 5];
    let mut rng = seed_rng(42);
    shuffle(&mut v, &mut rng);
    assert_eq!(v, vec![3, 4, 1, 2, 5]);
    let words: Vec<String> = ["a", "b", "c"].iter().map(|s| s.to_string()).collect();
    assert_eq!(shuffled_words(words, 7), vec!["c".to_string(), "a".to_string(), "b".to_string()]);
}

#[test]
fn shuffle_keeps_elements() {
    let mut v: Vec<u32> = (0..50).collect();
    let mut rng = seed_rng(12345);
    shuffle(&mut v, &mut rng);
    let mut sorted = v.clone();
    sorted.sort();
    assert_eq!(sorted, (0..50).collect::<Vec<u32>>());
}

#[test]
fn shuffle_of_short_lists() {
    let mut empty: Vec<u8> = vec![];
    let mut rng = seed_rng(3);
    shuffle(&mut empty, &mut rng);
    assert!(empty.is_empty());
    let mut one = vec![9];
    shuffle(&mut one, &mut rng);
    assert_eq!(one, vec![9]);
}

#[test]
fn word_lists_drop_empty_lines() {
    assert_eq!(non_empty_lines("a\n\nb\r\nc\n"), vec!["a", "b", "c"]);
    assert_eq!(non_empty_lines("x\r"), vec!["x\r"]);
    assert_eq!(non_empty_lines(""), Vec::<String>::new());
    assert_eq!(non_empty_lines("\n\n\r\n"), Vec::<String>::new());
}

#[test]
fn join_puts_single_spaces() {
    let words: Vec<String> = ["one", "two", "three"].iter().map(|s| s.to_string()).collect();
    assert_eq!(join_words(&words), "one two three");
    assert_eq!(join_words(&vec!["solo".to_string()]), "solo");
    assert_eq!(join_words(&Vec::new()), "");
}

#[test]
fn chars_of_counts_characters() {
    assert_eq!(chars_of("aé"), vec!['a', 'é']);
}

fn sample_db() -> WordsetDb {
    WordsetDb::new(&vec![
        file("ru_5000", "ru", "да\nнет\n"),
        file("en_1000", "en", "the\nof\n\nand\n"),
        file("en_10000", "en", "a\nb\nc\nd\ne\n"),
    ])
    .unwrap()
}

#[test]
fn store_lists_word_sets_by_language_then_size() {
    let db = sample_db();
    assert_eq!(db.get_wordset_names().unwrap(), vec!["en_1000", "en_10000", "ru_5000"]);
}

#[test]
fn store_returns_words_of_a_set() {
    let db = sample_db();
    let mut words = db.get_words("en_1000").unwrap();
    words.sort();
    assert_eq!(words, vec!["and", "of", "the"]);
    assert_eq!(db.get_words("missing").unwrap(), Vec::<String>::new());
}

#[test]
fn store_shuffles_words() {
    let db = sample_db();
    let mut words = db.get_shuffled_words("en_10000").unwrap();
    words.sort();
    assert_eq!(words, vec!["a", "b", "c", "d", "e"]);
    let mut quick = db.quick_start_words().unwrap();
    quick.sort();
    assert_eq!(quick, vec!["and", "of", "the"]);
}

#[test]
fn store_rejects_duplicate_names() {
    let res = WordsetDb::new(&vec![file("x", "en", "a\n"), file("x", "en", "b\n")]);
    assert!(matches!(res, Err(WordsetError::Database(_))));
}

#[test]
fn store_words_follow_the_lists() {
    let db = sample_db();
    let mut ru = db.get_words("ru_5000").unwrap();
    ru.sort();
    assert_eq!(ru, vec!["да", "нет"]);
    let mut shuffled = db.get_shuffled_words("ru_5000").unwrap();
    shuffled.sort();
    assert_eq!(shuffled, vec!["да", "нет"]);
    assert_eq!(db.get_shuffled_words("missing").unwrap(), Vec::<String>::new());
}

#[test]
fn store_of_no_lists_is_empty() {
    let db = WordsetDb::new(&Vec::new()).unwrap();
    assert_eq!(db.get_wordset_names().unwrap(), Vec::<String>::new());
}
