use subspace::api_key::{
    get_deepgram_api_key, is_api_key_configured, API_KEY_VAR, MISSING_KEY_MESSAGE,
};
use subspace::environment::Environment;
use subspace::loader::{first_step, next_step, LoadStep};
use subspace::parse::{parse_env_contents, parse_line, EnvEntry};

fn pairs(entries: &[EnvEntry]) -> Vec<(String, String)> {
    entries.iter().map(|e| (e.key.clone(), e.value.clone())).collect()
}

fn pair(k: &str, v: &str) -> (String, String) {
    (k.to_string(), v.to_string())
}

/// Drives the loader over `reads`, recording which candidates it asks for.
fn drive(reads: &[Option<&str>]) -> (Vec<usize>, LoadStep) {
    let n = reads.len();
    let mut asked = Vec::new();
    let mut step = first_step(n);
    while let LoadStep::Read(i) = step {
        asked.push(i);
        step = next_step(n, i, reads[i]);
    }
    (asked, step)
}

#[test]
fn simple_entry_is_installed_and_configured() {
    let mut env = Environment::new();
    env.install(&parse_env_contents("FOO=bar"));
    assert!(env.contains("FOO"));
    assert_eq!(env.get("FOO"), Some("bar".to_string()));
}

#[test]
fn api_key_from_file_is_served() {
    let mut env = Environment::new();
    env.install(&parse_env_contents("DEEPGRAM_API_KEY=abc123\n"));
    assert!(is_api_key_configured(&env));
    assert_eq!(get_deepgram_api_key(&env), Ok("abc123".to_string()));
}

#[test]
fn double_quoted_value_keeps_inner_spacing() {
    let e = parse_line("FOO=\"bar baz\"").unwrap();
    assert_eq!(e.key, "FOO");
    assert_eq!(e.value, "bar baz");
}

#[test]
fn single_quoted_value_is_stripped() {
    let e = parse_line("FOO='bar baz'").unwrap();
    assert_eq!(e.value, "bar baz");
}

#[test]
fn only_one_layer_of_quotes_is_stripped() {
    assert_eq!(parse_line("FOO=\"'x'\"").unwrap().value, "'x'");
    assert_eq!(parse_line("FOO=\"\"x\"\"").unwrap().value, "\"x\"");
}

#[test]
fn unmatched_quotes_are_kept() {
    assert_eq!(parse_line("FOO=\"bar'").unwrap().value, "\"bar'");
    assert_eq!(parse_line("FOO=\"bar").unwrap().value, "\"bar");
    assert_eq!(parse_line("FOO=\"").unwrap().value, "\"");
}

#[test]
fn empty_quotes_give_empty_value() {
    assert_eq!(parse_line("FOO=\"\"").unwrap().value, "");
}

#[test]
fn comment_line_installs_nothing() {
    assert!(parse_line("# FOO=bar").is_none());
    assert!(parse_line("   #FOO=bar").is_none());
    let entries = parse_env_contents("# FOO=bar\nBAR=1");
    assert_eq!(pairs(&entries), vec![pair("BAR", "1")]);
}

#[test]
fn line_without_separator_is_skipped_and_parsing_goes_on() {
    assert!(parse_line("just some words").is_none());
    let entries = parse_env_contents("A=1\ngarbage line\nB=2\n");
    assert_eq!(pairs(&entries), vec![pair("A", "1"), pair("B", "2")]);
}

#[test]
fn blank_and_empty_input_give_no_entries() {
    assert!(parse_env_contents("").is_empty());
    assert!(parse_env_contents("\n\n   \n\t\n").is_empty());
    assert!(parse_line("").is_none());
    assert!(parse_line("   ").is_none());
}

#[test]
fn empty_key_is_skipped() {
    assert!(parse_line("=value").is_none());
    assert!(parse_line("   = value").is_none());
}

#[test]
fn key_and_value_are_trimmed() {
    let e = parse_line("  KEY \t=   some value  ").unwrap();
    assert_eq!(e.key, "KEY");
    assert_eq!(e.value, "some value");
}

#[test]
fn value_is_split_at_first_separator() {
    let e = parse_line("URL=https://x.test/?a=b").unwrap();
    assert_eq!(e.key, "URL");
    assert_eq!(e.value, "https://x.test/?a=b");
}

#[test]
fn empty_value_is_kept() {
    let e = parse_line("EMPTY=").unwrap();
    assert_eq!(e.key, "EMPTY");
    assert_eq!(e.value, "");
}

#[test]
fn carriage_returns_and_unicode_blanks_are_trimmed() {
    let entries = parse_env_contents("A=1\r\nB = 2\r\n\u{3000}C\u{a0}=\u{2003}3\u{85}\n");
    assert_eq!(pairs(&entries), vec![pair("A", "1"), pair("B", "2"), pair("C", "3")]);
}

#[test]
fn non_ascii_text_is_kept() {
    let e = parse_line("GRUSS=\"grüße, 世界\"").unwrap();
    assert_eq!(e.value, "grüße, 世界");
}

#[test]
fn later_duplicate_key_wins() {
    let mut env = Environment::new();
    env.install(&parse_env_contents("A=1\nB=x\nA=2\n"));
    assert_eq!(env.get("A"), Some("2".to_string()));
    assert_eq!(env.get("B"), Some("x".to_string()));
}

#[test]
fn loading_twice_equals_loading_once() {
    let entries = parse_env_contents("A=1\nB=x\nA=2\n");
    let mut once = Environment::new();
    once.set("A".to_string(), "old".to_string());
    once.set("C".to_string(), "keep".to_string());
    let mut twice = Environment::new();
    twice.set("A".to_string(), "old".to_string());
    twice.set("C".to_string(), "keep".to_string());
    once.install(&entries);
    twice.install(&entries);
    twice.install(&entries);
    for k in ["A", "B", "C", "D"] {
        assert_eq!(once.get(k), twice.get(k));
    }
    assert_eq!(twice.get("A"), Some("2".to_string()));
    assert_eq!(twice.get("C"), Some("keep".to_string()));
    assert_eq!(twice.get("D"), None);
}

#[test]
fn install_overwrites_existing_value() {
    let mut env = Environment::new();
    env.set(API_KEY_VAR.to_string(), "from-os".to_string());
    env.install(&parse_env_contents("DEEPGRAM_API_KEY=from-file"));
    assert_eq!(get_deepgram_api_key(&env), Ok("from-file".to_string()));
}

#[test]
fn first_readable_candidate_wins() {
    let (asked, last) = drive(&[None, None, Some("X=1"), Some("Y=2")]);
    assert_eq!(asked, vec![0, 1, 2]);
    match last {
        LoadStep::Install { index, entries } => {
            assert_eq!(index, 2);
            assert_eq!(pairs(&entries), vec![pair("X", "1")]);
        }
        _ => panic!("expected the third candidate to be installed"),
    }
}

#[test]
fn readable_candidate_without_entries_still_ends_search() {
    let (asked, last) = drive(&[Some("# nothing here\n"), Some("Y=2")]);
    assert_eq!(asked, vec![0]);
    match last {
        LoadStep::Install { index, entries } => {
            assert_eq!(index, 0);
            assert!(entries.is_empty());
        }
        _ => panic!("expected the first candidate to be installed"),
    }
}

#[test]
fn no_readable_candidate_reads_each_once_and_finds_nothing() {
    let (asked, last) = drive(&[None, None, None]);
    assert_eq!(asked, vec![0, 1, 2]);
    assert!(matches!(last, LoadStep::NotFound));
}

#[test]
fn empty_candidate_list_finds_nothing() {
    assert!(matches!(first_step(0), LoadStep::NotFound));
}

#[test]
fn missing_key_gives_fixed_message() {
    let env = Environment::new();
    assert!(!is_api_key_configured(&env));
    assert_eq!(
        get_deepgram_api_key(&env),
        Err("DEEPGRAM_API_KEY environment variable not set. Please set it before running the app."
            .to_string())
    );
    assert_eq!(get_deepgram_api_key(&env), Err(MISSING_KEY_MESSAGE.to_string()));
}

#[test]
fn nothing_found_leaves_preexisting_key() {
    let (_, last) = drive(&[None, None, None]);
    let mut env = Environment::new();
    env.set(API_KEY_VAR.to_string(), "preset".to_string());
    if let LoadStep::Install { entries, .. } = last {
        env.install(&entries);
    }
    assert!(is_api_key_configured(&env));
    assert_eq!(get_deepgram_api_key(&env), Ok("preset".to_string()));
}

#[test]
fn other_names_do_not_configure_the_key() {
    let mut env = Environment::new();
    env.install(&parse_env_contents("DEEPGRAM_API_KEY_OLD=x\nOTHER=y"));
    assert!(!is_api_key_configured(&env));
    assert!(get_deepgram_api_key(&env).is_err());
}
