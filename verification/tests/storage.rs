use cargo_libafl::cache::Cache;
use cargo_libafl::dictionary::{parse_dictionary, parse_token_line, parse_trimmed_line, TokenLine};
use cargo_libafl::persist::{
    corpus_file, crash_file, crash_signature, signature_or_counter, to_hex16,
};
use cargo_libafl::tracing::{input_to_state, ComparisonTrace};

#[test]
fn least_recently_used_leaves_first() {
    let mut c = Cache::new(3);
    assert_eq!(c.len(), 0);
    assert_eq!(c.touch(10), None);
    assert_eq!(c.touch(11), None);
    assert_eq!(c.touch(12), None);
    assert_eq!(c.len(), 3);
    // 10 is used again, so 11 is now the least recently used
    assert_eq!(c.touch(10), None);
    assert_eq!(c.touch(13), Some(11));
    assert!(c.is_resident(10));
    assert!(!c.is_resident(11));
    assert!(c.is_resident(12));
    assert!(c.is_resident(13));
    assert_eq!(c.touch(14), Some(12));
    assert_eq!(c.touch(15), Some(10));
    assert_eq!(c.touch(15), None);
    assert_eq!(c.len(), 3);
}

#[test]
fn cache_of_one_and_of_none() {
    let mut one = Cache::new(1);
    assert_eq!(one.touch(5), None);
    assert_eq!(one.touch(5), None);
    assert_eq!(one.touch(6), Some(5));
    assert!(one.is_resident(6));
    let mut none = Cache::new(0);
    assert_eq!(none.touch(5), Some(5));
    assert_eq!(none.len(), 0);
    assert!(!none.is_resident(5));
}

#[test]
fn backtrace_folds_to_a_signature() {
    assert_eq!(crash_signature(&vec![]), 0);
    assert_eq!(crash_signature(&vec![0xdead]), 0);
    assert_eq!(crash_signature(&vec![0xdead, 0x10]), 0x10);
    assert_eq!(crash_signature(&vec![0xdead, 0x10, 0x01, 0xf00]), 0xf11);
    assert_eq!(crash_signature(&vec![1, 7, 7]), 0);
    // the innermost frame does not count
    assert_eq!(crash_signature(&vec![1, 2, 3]), crash_signature(&vec![9, 2, 3]));
    assert_eq!(signature_or_counter(Some(&vec![0, 5, 6]), 99), 3);
    assert_eq!(signature_or_counter(None, 99), 99);
}

#[test]
fn sixteen_hex_digits() {
    assert_eq!(to_hex16(0), "0000000000000000");
    assert_eq!(to_hex16(0xfeed_beef), "00000000feedbeef");
    assert_eq!(to_hex16(u64::MAX), "ffffffffffffffff");
    assert_eq!(to_hex16(0x0123_4567_89ab_cdef), "0123456789abcdef");
    for v in [1u64, 255, 4096, 1 << 63, 0x1234_5678_9abc_def0] {
        assert_eq!(to_hex16(v), format!("{:016x}", v));
    }
}

#[test]
fn files_of_crashes_and_test_cases() {
    assert_eq!(crash_file("out/crashes", 0xfeed_beef), "out/crashes/00000000feedbeef");
    assert_eq!(crash_file("out/crashes", 1), crash_file("out/crashes", 1));
    assert_ne!(crash_file("out/crashes", 1), crash_file("out/crashes", 2));
    let a = corpus_file("out/corpus", &b"AAAA".to_vec());
    let b = corpus_file("out/corpus", &b"AAAB".to_vec());
    assert_eq!(a, corpus_file("out/corpus", &b"AAAA".to_vec()));
    assert_ne!(a, b);
    assert!(a.starts_with("out/corpus/"));
    assert_eq!(a.len(), "out/corpus/".len() + 16);
    assert_eq!(a, format!("out/corpus/{:016x}", libafl_bolts::hash_std(b"AAAA")));
    assert_ne!(corpus_file("", &vec![]), "0000000000000000");
}

#[test]
fn dictionary_lines() {
    assert_eq!(parse_token_line(""), TokenLine::Skip);
    assert_eq!(parse_token_line("   \t"), TokenLine::Skip);
    assert_eq!(parse_token_line("# a comment \"x\""), TokenLine::Skip);
    assert_eq!(parse_token_line("\"GET\""), TokenLine::Token(b"GET".to_vec()));
    assert_eq!(parse_token_line("  kw1=\"POST\"  "), TokenLine::Token(b"POST".to_vec()));
    assert_eq!(parse_token_line("\"\\x41\\x42c\""), TokenLine::Token(b"ABc".to_vec()));
    assert_eq!(parse_token_line("\"a\\\\b\""), TokenLine::Token(b"a\\b".to_vec()));
    assert_eq!(parse_token_line("\"a\\\"b\""), TokenLine::Token(b"a\"b".to_vec()));
    assert_eq!(parse_token_line("\"\""), TokenLine::Skip);
    assert_eq!(parse_token_line("name=\"\""), TokenLine::Skip);
    assert_eq!(parse_token_line("\""), TokenLine::Illegal);
    assert_eq!(parse_token_line("name=\""), TokenLine::Illegal);
    assert_eq!(parse_token_line("no quotes"), TokenLine::Illegal);
    assert_eq!(parse_token_line("\"open"), TokenLine::Illegal);
    assert_eq!(parse_token_line("\"\\xZZ\""), TokenLine::Illegal);
    assert_eq!(parse_token_line("\"caf\u{e9}\""), TokenLine::Token("caf\u{e9}".as_bytes().to_vec()));
    assert_eq!(parse_token_line("\u{e9}=\"x\""), TokenLine::Token(b"x".to_vec()));
    assert_eq!(parse_token_line("\"x\"\u{e9}"), TokenLine::Illegal);
}

#[test]
fn dictionary_files() {
    let lines: Vec<String> = ["# tokens", "", "a=\"one\"", "\"two\"", "\"\"", "\"one\""]
        .iter()
        .map(|l| l.to_string())
        .collect();
    assert_eq!(
        parse_dictionary(&lines),
        Ok(vec![b"one".to_vec(), b"two".to_vec(), b"one".to_vec()])
    );
    let bad: Vec<String> =
        ["\"ok\"", "broken", "\"never read\"", "also broken"].iter().map(|l| l.to_string()).collect();
    assert_eq!(parse_dictionary(&bad), Err(1));
    assert_eq!(parse_dictionary(&vec![]), Ok(vec![]));
}

#[test]
fn comparison_trace_takes_only_what_fits() {
    let mut t = ComparisonTrace::new();
    assert_eq!(t.len(), 0);
    assert!(t.record(b"abcd".to_vec(), b"wxyz".to_vec()));
    assert!(!t.record(vec![], vec![]));
    assert!(!t.record(b"ab".to_vec(), b"abc".to_vec()));
    assert!(!t.record(vec![0; 33], vec![0; 33]));
    assert!(t.record(vec![0; 32], vec![1; 32]));
    assert_eq!(t.len(), 2);
    t.reset();
    assert_eq!(t.len(), 0);
}

#[test]
fn input_to_state_puts_the_other_operand_in() {
    let mut t = ComparisonTrace::new();
    let input = b"..MAGIC..".to_vec();
    for seed in 0..20u64 {
        assert_eq!(input_to_state(input.clone(), &t, seed), input);
    }
    assert!(t.record(b"MAGIC".to_vec(), b"KEYWD".to_vec()));
    let mut hit = false;
    for seed in 0..64u64 {
        let out = input_to_state(input.clone(), &t, seed);
        assert_eq!(out.len(), input.len());
        assert_eq!(out, input_to_state(input.clone(), &t, seed));
        if out == b"..KEYWD..".to_vec() {
            hit = true;
        }
    }
    assert!(hit);
    assert_eq!(input_to_state(vec![], &t, 1), Vec::<u8>::new());
}

#[test]
fn trimmed_lines() {
    assert_eq!(parse_trimmed_line(""), TokenLine::Skip);
    assert_eq!(parse_trimmed_line("#"), TokenLine::Skip);
    assert_eq!(parse_trimmed_line("\"\""), TokenLine::Skip);
    assert_eq!(parse_trimmed_line("\""), TokenLine::Illegal);
    assert_eq!(parse_trimmed_line("a=\"b\""), TokenLine::Token(b"b".to_vec()));
    assert_eq!(parse_trimmed_line("a=\"b\"c\""), TokenLine::Token(b"b\"c".to_vec()));
    // white space at the ends is the caller's to take off
    assert_eq!(parse_trimmed_line(" \"b\" "), TokenLine::Illegal);
    assert_eq!(parse_trimmed_line(" #"), TokenLine::Illegal);
}
