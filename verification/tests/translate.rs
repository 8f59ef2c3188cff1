use bencher::call::KvCall;
use bencher::error::RunnerError;
use bencher::keys::KeySet;
use bencher::text::{chars_of, contains_str, is_whitespace, parse_decimal, split_whitespace};
use bencher::translate::{interpret, interpret_ycsb_call, parse_ycsb_key, parse_ycsb_scnt, parse_ycsb_value};

fn key_set(keys: &[&str]) -> KeySet {
    let mut set = KeySet::new();
    for k in keys {
        set.insert(k.to_string());
    }
    set
}

fn five_keys() -> KeySet {
    key_set(&["user3_field9", "user1_field3", "user5_field0", "user2_field1", "user4_field2"])
}

#[test]
fn insert_line_gives_put_and_learns_the_key() {
    let mut keys = KeySet::new();
    let got = interpret("INSERT user1 field3 [ Hello World ]", &mut keys).unwrap();
    assert_eq!(
        got,
        Some((
            KvCall::Put { key: "user1_field3".to_string(), value: "Hello_World".to_string() },
            "INSERT".to_string()
        ))
    );
    assert!(keys.contains("user1_field3"));
    assert_eq!(keys.to_vec(), vec!["user1_field3".to_string()]);
}

#[test]
fn insert_line_through_the_call_translator() {
    let mut keys = KeySet::new();
    let got = interpret_ycsb_call("INSERT user1 field3 [ Hello World ]", &mut keys).unwrap();
    assert_eq!(
        got,
        Some((
            KvCall::Put { key: "user1_field3".to_string(), value: "Hello_World".to_string() },
            "INSERT".to_string()
        ))
    );
    assert_eq!(keys.len(), 1);
}

#[test]
fn update_line_gives_swap_and_learns_nothing() {
    let mut keys = KeySet::new();
    let got = interpret("UPDATE user7 field2 [ a b c ]\n", &mut keys).unwrap();
    assert_eq!(
        got,
        Some((
            KvCall::Swap { key: "user7_field2".to_string(), value: "a_b_c".to_string() },
            "UPDATE".to_string()
        ))
    );
    assert!(keys.is_empty());
}

#[test]
fn read_line_gives_get() {
    let mut keys = five_keys();
    let got = interpret("  READ   user2\tfield1  ", &mut keys).unwrap();
    assert_eq!(got, Some((KvCall::Get { key: "user2_field1".to_string() }, "READ".to_string())));
    assert_eq!(keys.len(), 5);
}

#[test]
fn scan_ends_at_the_fifth_key_from_the_start() {
    let mut keys = five_keys();
    let got = interpret("SCAN user1 field3 5", &mut keys).unwrap();
    assert_eq!(
        got,
        Some((
            KvCall::Scan { key_start: "user1_field3".to_string(), key_end: "user5_field0".to_string() },
            "SCAN".to_string()
        ))
    );
}

#[test]
fn scan_counts_from_the_first_key_at_or_after_the_start() {
    let mut keys = five_keys();
    let got = interpret("SCAN user2 field0 2", &mut keys).unwrap();
    assert_eq!(
        got,
        Some((
            KvCall::Scan { key_start: "user2_field0".to_string(), key_end: "user3_field9".to_string() },
            "SCAN".to_string()
        ))
    );
    let got = interpret("SCAN user1 field3 1", &mut keys).unwrap();
    assert_eq!(
        got,
        Some((
            KvCall::Scan { key_start: "user1_field3".to_string(), key_end: "user1_field3".to_string() },
            "SCAN".to_string()
        ))
    );
}

#[test]
fn scan_ends_at_the_greatest_key_when_too_few_are_left() {
    let mut keys = five_keys();
    let got = interpret("SCAN user3 field9 4", &mut keys).unwrap();
    assert_eq!(
        got,
        Some((
            KvCall::Scan { key_start: "user3_field9".to_string(), key_end: "user5_field0".to_string() },
            "SCAN".to_string()
        ))
    );
    let got = interpret("SCAN user9 field9 1", &mut keys).unwrap();
    assert_eq!(
        got,
        Some((
            KvCall::Scan { key_start: "user9_field9".to_string(), key_end: "user5_field0".to_string() },
            "SCAN".to_string()
        ))
    );
    let got = interpret("SCAN user1 field3 0", &mut keys).unwrap();
    assert_eq!(
        got,
        Some((
            KvCall::Scan { key_start: "user1_field3".to_string(), key_end: "user5_field0".to_string() },
            "SCAN".to_string()
        ))
    );
}

#[test]
fn scan_without_known_keys_is_open_ended() {
    let mut keys = KeySet::new();
    let got = interpret("SCAN user9 field1 3", &mut keys).unwrap();
    assert_eq!(
        got,
        Some((
            KvCall::Scan { key_start: "user9_field1".to_string(), key_end: "zzzzzzzz".to_string() },
            "SCAN".to_string()
        ))
    );
    let got = interpret("SCAN user9 field1", &mut keys).unwrap();
    assert_eq!(
        got,
        Some((
            KvCall::Scan { key_start: "user9_field1".to_string(), key_end: "zzzzzzzz".to_string() },
            "SCAN".to_string()
        ))
    );
}

#[test]
fn lines_that_are_no_calls_are_passed_over() {
    let mut keys = five_keys();
    assert_eq!(interpret("", &mut keys), Ok(None));
    assert_eq!(interpret("   \n", &mut keys), Ok(None));
    assert_eq!(interpret("DELETE user1 field3", &mut keys), Ok(None));
    assert_eq!(interpret("[OVERALL], RunTime(ms), 120", &mut keys), Ok(None));
    assert_eq!(interpret("[READ] No such file", &mut keys), Ok(None));
    assert_eq!(interpret("insert user1 field3 [ x ]", &mut keys), Ok(None));
    assert_eq!(keys.len(), 5);
}

#[test]
fn missing_segments_are_parse_errors() {
    let mut keys = five_keys();
    assert_eq!(interpret("READ user1", &mut keys), Err(RunnerError::Parse("missing key segment".to_string())));
    assert_eq!(interpret("INSERT", &mut keys), Err(RunnerError::Parse("missing key segment".to_string())));
    assert_eq!(
        interpret("INSERT user8 field1 Hello", &mut keys),
        Err(RunnerError::Parse("no value start bracket".to_string()))
    );
    assert_eq!(
        interpret("UPDATE user8 field1", &mut keys),
        Err(RunnerError::Parse("no value start bracket".to_string()))
    );
    assert_eq!(
        interpret("SCAN user1 field3", &mut keys),
        Err(RunnerError::Parse("missing scan count".to_string()))
    );
    assert_eq!(
        interpret("SCAN user1 field3 many", &mut keys),
        Err(RunnerError::Parse("invalid scan count".to_string()))
    );
    assert!(!keys.contains("user8_field1"));
    assert_eq!(keys.len(), 5);
}

#[test]
fn missing_profile_is_an_io_error() {
    let mut keys = KeySet::new();
    let line = "ycsb.sh: workloads/workloadx: No such file or directory\n";
    assert_eq!(interpret(line, &mut keys), Err(RunnerError::Io(line.to_string())));
    assert_eq!(interpret_ycsb_call(line, &mut keys), Ok(None));
}

#[test]
fn a_call_that_mentions_a_missing_file_is_still_a_call() {
    let mut keys = KeySet::new();
    let got = interpret("INSERT user1 field1 [ No such file ]", &mut keys).unwrap();
    assert_eq!(
        got,
        Some((
            KvCall::Put { key: "user1_field1".to_string(), value: "No_such_file".to_string() },
            "INSERT".to_string()
        ))
    );
}

#[test]
fn value_keeps_inner_brackets_and_may_be_empty() {
    let segs = split_whitespace("INSERT a b [ x ] y ]");
    assert_eq!(parse_ycsb_value(&segs, 3), Ok("x_]_y".to_string()));
    let segs = split_whitespace("INSERT a b [ ]");
    assert_eq!(parse_ycsb_value(&segs, 3), Ok("".to_string()));
    let segs = split_whitespace("INSERT a b [");
    assert_eq!(parse_ycsb_value(&segs, 3), Ok("".to_string()));
    let segs = split_whitespace("INSERT a b [ field0=v0 field1=v1");
    assert_eq!(parse_ycsb_value(&segs, 3), Ok("field0=v0_field1=v1".to_string()));
}

#[test]
fn key_joins_two_words() {
    let segs = split_whitespace("READ usertable user42");
    assert_eq!(parse_ycsb_key(&segs, 1), Ok("usertable_user42".to_string()));
    assert_eq!(parse_ycsb_key(&segs, 2), Err(RunnerError::Parse("missing key segment".to_string())));
    assert_eq!(parse_ycsb_key(&segs, usize::MAX), Err(RunnerError::Parse("missing key segment".to_string())));
}

#[test]
fn scan_count_is_a_decimal_number() {
    let segs = split_whitespace("SCAN a b 17 +4 007 -1 1x");
    assert_eq!(parse_ycsb_scnt(&segs, 3), Ok(17));
    assert_eq!(parse_ycsb_scnt(&segs, 4), Ok(4));
    assert_eq!(parse_ycsb_scnt(&segs, 5), Ok(7));
    assert_eq!(parse_ycsb_scnt(&segs, 6), Err(RunnerError::Parse("invalid scan count".to_string())));
    assert_eq!(parse_ycsb_scnt(&segs, 7), Err(RunnerError::Parse("invalid scan count".to_string())));
    assert_eq!(parse_ycsb_scnt(&segs, 8), Err(RunnerError::Parse("missing scan count".to_string())));
}

#[test]
fn decimal_agrees_with_the_standard_parser() {
    let max = usize::MAX.to_string();
    let over = format!("{}0", max);
    let cases = ["0", "1", "+", "", "+0", "++1", "12a", "a12", "00000000000000000000000000001", " 1", "1 ", "٣"];
    for s in cases.iter().chain([max.as_str(), over.as_str()].iter()) {
        assert_eq!(parse_decimal(s), s.parse::<usize>().ok(), "on {:?}", s);
    }
    let mut bumped = max.clone().into_bytes();
    let last = bumped.len() - 1;
    bumped[last] += 1;
    let bumped = String::from_utf8(bumped).unwrap();
    assert_eq!(parse_decimal(&bumped), bumped.parse::<usize>().ok());
    assert_eq!(parse_decimal(&max), Some(usize::MAX));
}

#[test]
fn words_agree_with_the_standard_splitter() {
    let lines = [
        "",
        " ",
        "a",
        " a ",
        "INSERT user1 field3 [ Hello World ]",
        "\tREAD\u{a0}x\u{2003}y\u{3000}z\r\n",
        "a\u{85}b\u{1680}c\u{2028}d\u{2029}e\u{202f}f\u{205f}g",
        "é ü  日本語 \u{200b}zero",
        "x\u{0b}y\u{0c}z\u{1c}w",
    ];
    for line in lines {
        let want: Vec<&str> = line.split_whitespace().collect();
        assert_eq!(split_whitespace(line), want, "on {:?}", line);
    }
}

#[test]
fn substring_search_agrees_with_the_standard_one() {
    let hay = "cat: ycsb/workloads/workloadz: No such file or directory";
    for needle in ["No such file", "", "cat", "directory", "directoryx", "No such  file", "y", "日"] {
        assert_eq!(contains_str(hay, needle), hay.contains(needle), "on {:?}", needle);
    }
    assert!(contains_str("", ""));
    assert!(!contains_str("", "a"));
    assert!(contains_str("日本語", "本"));
}

#[test]
fn whitespace_agrees_with_the_standard_library_on_every_character() {
    for u in 0..=0x10FFFFu32 {
        if let Some(c) = char::from_u32(u) {
            assert_eq!(is_whitespace(c), c.is_whitespace(), "on U+{:04X}", u);
        }
    }
}

#[test]
fn characters_of_a_string_in_order() {
    assert_eq!(chars_of("a é日\u{10348}"), vec!['a', ' ', 'é', '日', '\u{10348}']);
    assert_eq!(chars_of(""), Vec::<char>::new());
}
