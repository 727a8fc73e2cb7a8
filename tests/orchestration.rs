use gitsc::analyzer::analyze_diff;
use gitsc::config::SmartCommitConfig;
use gitsc::diff_hasher::generate_diff_hash;
use gitsc::error::Error;
use gitsc::git::{is_work_tree_output, staged_diff_from_output};
use gitsc::providers::{build_prompt, GeminiProvider, OllamaProvider};
use gitsc::repository::CommitMessage;
use gitsc::run::{home_relative_part, select_provider, Event, Phase, ProviderChoice, Run, Step};

const TEMPLATE: &str = "{type}({scope}): {message}";

fn reply() -> CommitMessage {
    CommitMessage { commit_type: "feat".to_string(), scope: Some("ai".to_string()), message: "add provider".to_string() }
}

fn cfg() -> SmartCommitConfig {
    SmartCommitConfig { line_threshold: 150 }
}

#[test]
fn start_with_cache_looks_up_fingerprint_of_bounded_diff() {
    let d = "+a\n+b\n";
    let (run, step) = Run::start(d, &cfg(), TEMPLATE, true);
    let key = generate_diff_hash(&analyze_diff(d, &cfg()));
    match step {
        Step::LookUp(k) => assert_eq!(k, key),
        other => panic!("unexpected {:?}", other),
    }
    assert_eq!(run.current_phase(), Phase::AwaitLookup);
}

#[test]
fn key_covers_truncated_text() {
    let mut d = String::new();
    for i in 0..200 {
        d.push_str(&format!("+line {}\n", i));
    }
    let (_, step) = Run::start(&d, &cfg(), TEMPLATE, true);
    let truncated = analyze_diff(&d, &cfg());
    assert!(truncated.ends_with("\n... [Diff truncated to 150 lines] ..."));
    match step {
        Step::LookUp(k) => {
            assert_eq!(k, generate_diff_hash(&truncated));
            assert_ne!(k, generate_diff_hash(&d));
        }
        other => panic!("unexpected {:?}", other),
    }
}

#[test]
fn cache_miss_invokes_provider_once() {
    let (mut run, _) = Run::start("+x", &cfg(), TEMPLATE, true);
    match run.step(Event::CacheMiss) {
        Step::Invoke(d) => assert_eq!(d, "+x"),
        other => panic!("unexpected {:?}", other),
    }
    assert_eq!(run.current_phase(), Phase::AwaitReply);
    match run.step(Event::Replied(reply())) {
        Step::Store(k, m) => {
            assert_eq!(k, generate_diff_hash("+x"));
            assert_eq!(m, reply());
        }
        other => panic!("unexpected {:?}", other),
    }
    match run.step(Event::Stored) {
        Step::Emit(t) => assert_eq!(t, "feat(ai): add provider"),
        other => panic!("unexpected {:?}", other),
    }
    assert_eq!(run.current_phase(), Phase::Finished);
}

#[test]
fn cache_error_falls_back_to_provider() {
    let (mut run, _) = Run::start("+x", &cfg(), TEMPLATE, true);
    assert!(matches!(run.step(Event::CacheFailed(Error::Sqlite("locked".to_string()))), Step::Invoke(_)));
    assert!(matches!(run.step(Event::Replied(reply())), Step::Store(_, _)));
    match run.step(Event::StoreFailed(Error::Sqlite("disk full".to_string()))) {
        Step::Emit(t) => assert_eq!(t, "feat(ai): add provider"),
        other => panic!("unexpected {:?}", other),
    }
}

#[test]
fn cache_hit_skips_provider() {
    let (mut run, _) = Run::start("+x", &cfg(), TEMPLATE, true);
    match run.step(Event::CacheHit(reply())) {
        Step::Emit(t) => assert_eq!(t, "feat(ai): add provider"),
        other => panic!("unexpected {:?}", other),
    }
    assert!(!run.accepts(&Event::CacheMiss));
}

#[test]
fn without_cache_provider_first_and_failure_ends() {
    let (mut run, step) = Run::start("+x", &cfg(), TEMPLATE, false);
    assert!(matches!(step, Step::Invoke(_)));
    assert!(run.accepts(&Event::ProviderFailed(Error::Ai("down".to_string()))));
    assert!(!run.accepts(&Event::Stored));
    match run.step(Event::ProviderFailed(Error::Ai("down".to_string()))) {
        Step::Fail(Error::Ai(m)) => assert_eq!(m, "down"),
        other => panic!("unexpected {:?}", other),
    }
}

#[test]
fn without_cache_reply_is_emitted() {
    let (mut run, _) = Run::start("+x", &cfg(), TEMPLATE, false);
    match run.step(Event::Replied(reply())) {
        Step::Emit(t) => assert_eq!(t, "feat(ai): add provider"),
        other => panic!("unexpected {:?}", other),
    }
}

#[test]
fn provider_selection() {
    assert_eq!(select_provider("gemini", None).unwrap(), ProviderChoice::Gemini);
    assert_eq!(select_provider("ollama", Some("http://h".to_string())).unwrap(), ProviderChoice::Ollama("http://h".to_string()));
    assert!(matches!(select_provider("ollama", None), Err(Error::Config(m)) if m == "Ollama URL not configured"));
    assert!(matches!(select_provider("gpt", None), Err(Error::Config(m)) if m == "Unsupported AI provider 'gpt'"));
}

#[test]
fn home_paths() {
    assert_eq!(home_relative_part("~/.cache/gitsc/cache.db"), Some(".cache/gitsc/cache.db".to_string()));
    assert_eq!(home_relative_part("/tmp/c.db"), None);
    assert_eq!(home_relative_part("~"), None);
}

#[test]
fn gemini_provider_contract() {
    assert!(matches!(GeminiProvider::new("m".to_string(), None), Err(Error::Config(m)) if m == "GEMINI_API_KEY not set"));
    let p = GeminiProvider::new("gemini-2.5-flash".to_string(), Some("K".to_string())).unwrap();
    assert_eq!(p.endpoint(), "https://generativelanguage.googleapis.com/v1/models/gemini-2.5-flash:generateContent?key=K");
    let c = GeminiProvider::read_reply(&vec![vec!["fix(io): close file".to_string()]]).unwrap();
    assert_eq!(c.commit_type, "fix");
    assert_eq!(c.scope, Some("io".to_string()));
    assert_eq!(c.message, "close file");
    assert!(matches!(GeminiProvider::read_reply(&vec![]), Err(Error::Ai(m)) if m == "Failed to get commit message from Gemini"));
    assert!(matches!(GeminiProvider::read_reply(&vec![vec![]]), Err(Error::Ai(_))));
    match GeminiProvider::undecodable_response("eof", "{") {
        Error::Ai(m) => assert_eq!(m, "Failed to parse Gemini response: eof. Raw response: {"),
        other => panic!("unexpected {:?}", other),
    }
}

#[test]
fn ollama_provider_contract() {
    let p = OllamaProvider::new("http://localhost:11434".to_string(), "llama3".to_string()).unwrap();
    assert_eq!(p.endpoint(), "http://localhost:11434/api/generate");
    assert_eq!(p.model(), "llama3");
    let c = OllamaProvider::read_reply("\n  chore: bump deps \n");
    assert_eq!(c, CommitMessage { commit_type: "chore".to_string(), scope: None, message: "bump deps".to_string() });
    match OllamaProvider::undecodable_response("eof", "{") {
        Error::Ai(m) => assert_eq!(m, "Failed to parse Ollama response: eof. Raw response: {"),
        other => panic!("unexpected {:?}", other),
    }
}

#[test]
fn prompt_embeds_diff() {
    assert_eq!(
        build_prompt("+x"),
        "Analyze the following git diff and generate a **concise single-line commit message** in the format 'type(scope): subject':\n\n+x"
    );
}

#[test]
fn git_outputs() {
    assert!(is_work_tree_output(true, "true\n"));
    assert!(!is_work_tree_output(true, "false\n"));
    assert!(!is_work_tree_output(false, "true\n"));
    assert!(matches!(staged_diff_from_output(true, " \n".to_string(), ""), Err(Error::NoStagedChanges)));
    assert_eq!(staged_diff_from_output(true, "+a\n".to_string(), "").unwrap(), "+a\n");
    assert!(matches!(staged_diff_from_output(false, String::new(), "bad"), Err(Error::Git(m)) if m == "Failed to get staged diff: bad"));
}

#[test]
fn error_descriptions() {
    assert_eq!(Error::Config("x".to_string()).describe(), "Configuration error: x");
    assert_eq!(Error::NoStagedChanges.describe(), "No staged changes found to generate a commit message.");
    assert_eq!(Error::Sqlite("y".to_string()).describe(), "SQLite error: y");
}

#[test]
fn providers_keep_unclosed_scope() {
    let c = GeminiProvider::read_reply(&vec![vec!["feat(core: add x".to_string()]]).unwrap();
    assert_eq!(c, CommitMessage { commit_type: "feat".to_string(), scope: Some("core".to_string()), message: "add x".to_string() });
    let o = OllamaProvider::read_reply(" feat(core: add x ");
    assert_eq!(o, CommitMessage { commit_type: "feat".to_string(), scope: Some("core".to_string()), message: "add x".to_string() });
}
