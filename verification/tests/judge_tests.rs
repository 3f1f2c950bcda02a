use judge::cli::{
    cut_is_ok, export_plan, list_figures, parse_num, start_plan, truncate_str, ExportError,
    ExportFormat, NumError, StartError, StartPlan,
};
use judge::config::{interviewer_name, needs_setup, nonempty, Config};
use judge::export::{csv_records, question_figures, to_csv, ExportData};
use judge::html::{html_report, to_html};
use judge::json::{export_json, question_json, topic_json, Json};
use judge::keyed::StrMap;
use judge::lexical::str_lt;
use judge::llm::{finish_generated, user_prompt, GenError};
use judge::models::{
    total_answered, total_max, total_max_asked, total_questions, total_score, Candidate, Question,
    Responses, TopicData,
};
use judge::qb::{
    append_body, count_levels, make_question, parse_topic_file, slug_of_lower, slugify, topic_path,
};
use judge::report::{
    esc, level_groups, level_name, level_tag, percent, perf_band, response_label, stat_cards,
    styled_word, title_case, top_topics, topic_stats, PerfBand,
};
use judge::roles::{load_topics_for_role, parse_role_topics, RoleError};
use judge::store::{Interview, Store};
use judge::tui::app::{lowered_matches, question_matches_query, Filter, FilterSource, SearchScope, SearchState};
use judge::tui::cards::{card_slots, Slot};
use judge::tui::order::reorder_questions;
use judge::tui::state::{AppState, Effect, Key};
use judge::tui::ui::{
    card_title, diff_str_topic, diff_str_topics, keyword_line, pct_resp_str, score_mark,
    search_status, section_label, truncate, written_count,
};

const EXAMPLE_BANK: &str = "# <example topic>\n\n## [1] What is an n-gram model?\n\n- 1: multiple words chained together\n- 3: something required for co-occurrence matrices used in embeddings\n\n## [2] What is tokenization? Name two common algorithms.\n\n- 1: splitting text into units like words or subwords\n- 2: BPE and WordPiece\n- 3: trade-offs between character, subword, and word tokenization; OOV handling\n\n## [3] Why do transformer attention scores get scaled by sqrt(d_k)?\n\n- 3: prevents softmax from saturating when d_k is large, keeps gradients stable\n- 4: derivation from variance of dot product of random vectors with unit variance\n";

fn no_keywords() -> [Vec<String>; 4] {
    [vec![], vec![], vec![], vec![]]
}

fn q(topic: &str, level: u8, text: &str, ai: bool) -> Question {
    make_question(topic, level, text, no_keywords(), ai)
}

fn responses(pairs: &[(&str, u8)]) -> Responses {
    let mut r = StrMap::new();
    for (k, v) in pairs {
        r.insert(k.to_string(), *v);
    }
    r
}

fn candidate() -> Candidate {
    Candidate {
        id: 7,
        name: "Alice Chen".to_string(),
        role: "rust-engineer".to_string(),
        created_at: "2024-03-05T10:30:00+00:00".to_string(),
    }
}

// ── Question banks ───────────────────────────────────────────────────────────

#[test]
fn parse_example_bank() {
    let qs = parse_topic_file("nlp", EXAMPLE_BANK);
    assert_eq!(qs.len(), 3);
    assert_eq!(qs[0].level, 1);
    assert_eq!(qs[0].text, "What is an n-gram model?");
    assert_eq!(qs[0].keywords[0], vec!["multiple words chained together".to_string()]);
    assert!(qs[0].keywords[1].is_empty());
    assert_eq!(
        qs[0].keywords[2],
        vec!["something required for co-occurrence matrices used in embeddings".to_string()]
    );
    assert_eq!(qs[1].level, 2);
    assert_eq!(qs[1].keywords[1], vec!["BPE and WordPiece".to_string()]);
    assert_eq!(
        qs[1].keywords[2],
        vec!["trade-offs between character, subword, and word tokenization; OOV handling".to_string()]
    );
    assert_eq!(qs[2].level, 3);
    assert_eq!(qs[2].keywords[3].len(), 1);
    assert!(qs.iter().all(|q| !q.ai_generated && q.topic == "nlp"));
}

#[test]
fn question_ids_are_content_hashes() {
    let qs = parse_topic_file("nlp", EXAMPLE_BANK);
    assert_eq!(qs[0].id, "4e86f1d0e5c53773");
    assert_eq!(qs[1].id, "635dfad2464413c4");
    assert_eq!(qs[2].id, "869e9d42afa19fe9");
    let again = q("nlp", 4, "What is an n-gram model?", true);
    assert_eq!(again.id, qs[0].id);
    let other_topic = q("rust", 1, "What is an n-gram model?", false);
    assert_ne!(other_topic.id, qs[0].id);
    assert_eq!(q("rust", 1, "What is ownership?", false).id, "85e8fe650295a547");
}

#[test]
fn parse_ai_marked_and_invalid_headings() {
    let content = "## [2] [AI] Explain borrowing.\n- 2: shared and mutable references\n## [5] Too deep?\n- 1: ignored keyword\n## [x] Not a level\n## [1]   \n## [1] Plain\n- 9: out of range\n- 1:   \n-1: no space\n  - 4:  padded keyword  \n";
    let qs = parse_topic_file("rust", content);
    assert_eq!(qs.len(), 2);
    assert!(qs[0].ai_generated);
    assert_eq!(qs[0].text, "Explain borrowing.");
    assert_eq!(qs[0].keywords[1], vec!["shared and mutable references".to_string()]);
    assert!(!qs[1].ai_generated);
    assert_eq!(qs[1].text, "Plain");
    assert!(qs[1].keywords[0].is_empty());
    assert_eq!(qs[1].keywords[3], vec!["padded keyword".to_string()]);
}

#[test]
fn parse_empty_bank() {
    assert!(parse_topic_file("x", "").is_empty());
    assert!(parse_topic_file("x", "# title only\n\n- 1: stray keyword\n").is_empty());
}

#[test]
fn count_levels_of_generated_markdown() {
    let content = "# nlp\n## [1] a?\n## [1] b?\n  ## [3] c?\n## [4] d?\n## [7] e?\n## [2x] f?\n";
    assert_eq!(count_levels(content), [2, 0, 1, 1]);
    assert_eq!(count_levels(EXAMPLE_BANK), [1, 1, 1, 0]);
}

#[test]
fn parsed_never_exceeds_counted() {
    let qs = parse_topic_file("nlp", EXAMPLE_BANK);
    let c = count_levels(EXAMPLE_BANK);
    assert!(qs.len() <= c.iter().sum::<usize>());
}

#[test]
fn slugify_examples() {
    assert_eq!(slugify("Data Science"), "data-science");
    assert_eq!(slugify("Machine_Learning 101!"), "machine-learning-101");
    assert_eq!(slugify("  C++ & Rust "), "--c--rust-");
    assert_eq!(slugify("Ünïcode Tëst"), "ünïcode-tëst");
    assert_eq!(slugify(""), "");
}

#[test]
fn slug_keeps_only_alphanumerics_and_hyphens() {
    let s = slugify("Sr. Backend/Infra Engineer (Go)");
    assert_eq!(s, "sr-backendinfra-engineer-go");
    assert!(s.chars().all(|c| c.is_alphanumeric() || c == '-'));
}

#[test]
fn topic_path_joins_dir_and_slug() {
    assert_eq!(topic_path("/home/a/.judge/qb", "nlp"), "/home/a/.judge/qb/nlp.md");
    assert_eq!(topic_path("/home/a/.judge/qb/", "nlp"), "/home/a/.judge/qb/nlp.md");
}

#[test]
fn append_body_drops_title_blank_lines_and_leading_headings() {
    let content = "# nlp\n\n## [1] First?\n- 1: kw\n\n## [2] Second?\n- 2: kw2";
    assert_eq!(append_body(content), "- 1: kw\n\n## [2] Second?\n- 2: kw2");
    assert_eq!(append_body("# only\n\n"), "");
    assert_eq!(append_body("plain\n# later"), "plain\n# later");
}

// ── Roles ────────────────────────────────────────────────────────────────────

#[test]
fn role_topics_are_bullets() {
    let r = parse_role_topics("# ML Engineer\n- nlp\n  - deep-learning  \n-x\n- \nnotes\n");
    match r {
        Ok(ts) => assert_eq!(ts, vec!["nlp".to_string(), "deep-learning".to_string()]),
        Err(_) => panic!("topics expected"),
    }
    assert!(matches!(parse_role_topics("# empty\n\n"), Err(RoleError::NoTopics)));
}

#[test]
fn topics_for_role_parse_each_bank() {
    let ts = load_topics_for_role(vec![
        ("nlp".to_string(), Some(EXAMPLE_BANK.to_string())),
        ("missing".to_string(), None),
    ]);
    assert_eq!(ts.len(), 2);
    assert_eq!(ts[0].name, "nlp");
    assert_eq!(ts[0].questions.len(), 3);
    assert_eq!(ts[1].name, "missing");
    assert!(ts[1].questions.is_empty());
}

// ── Scores ───────────────────────────────────────────────────────────────────

fn rust_topic() -> TopicData {
    TopicData {
        name: "rust".to_string(),
        questions: vec![
            q("rust", 1, "What is ownership?", false),
            q("rust", 2, "Explain lifetimes.", false),
            q("rust", 3, "How does Pin work?", true),
        ],
    }
}

#[test]
fn topic_scores() {
    let t = rust_topic();
    let r = responses(&[(&t.questions[0].id, 4), (&t.questions[2].id, 2), ("unrelated", 4)]);
    assert_eq!(t.max_score(), 24);
    assert_eq!(t.max_score_asked(&r), 16);
    assert_eq!(t.score(&r), 10);
    assert_eq!(t.answered(&r), 2);
}

#[test]
fn scores_stay_within_points() {
    let t = rust_topic();
    let r = responses(&[(&t.questions[0].id, 4), (&t.questions[1].id, 0)]);
    assert!(t.score(&r) <= t.max_score_asked(&r));
    assert!(t.max_score_asked(&r) <= t.max_score());
    assert!(t.answered(&r) <= t.questions.len());
}

#[test]
fn totals_over_topics() {
    let a = rust_topic();
    let b = TopicData { name: "nlp".to_string(), questions: parse_topic_file("nlp", EXAMPLE_BANK) };
    let r = responses(&[(&a.questions[1].id, 3), (&b.questions[2].id, 1)]);
    let ts = vec![a, b];
    assert_eq!(total_score(&ts, &r), 9);
    assert_eq!(total_max_asked(&ts, &r), 20);
    assert_eq!(total_max(&ts), 48);
    assert_eq!(total_answered(&ts, &r), 2);
    assert_eq!(total_questions(&ts), 6);
    let f = list_figures(&ts, &r);
    assert_eq!((f.answered, f.total_questions, f.score, f.max_score), (2, 6, 9, 48));
}

#[test]
fn question_figures_of_scored_and_unscored() {
    let t = rust_topic();
    let r = responses(&[(&t.questions[1].id, 3)]);
    let f = question_figures(&t.questions[1], &r);
    assert_eq!((f.score, f.points, f.max_points), (3, 6, 8));
    let g = question_figures(&t.questions[2], &r);
    assert_eq!((g.score, g.points, g.max_points), (0, 0, 12));
}

// ── Keyed store of responses ─────────────────────────────────────────────────

#[test]
fn keyed_map_insert_get_remove() {
    let mut m: StrMap<u8> = StrMap::new();
    assert_eq!(m.len(), 0);
    m.insert("a".to_string(), 1);
    m.insert("b".to_string(), 2);
    m.insert("a".to_string(), 3);
    assert_eq!(m.len(), 2);
    assert_eq!(m.get("a"), Some(&3));
    assert!(m.contains_key("b"));
    m.remove("b");
    assert!(!m.contains_key("b"));
    m.remove("zzz");
    assert_eq!(m.len(), 1);
}

// ── Interview store ──────────────────────────────────────────────────────────

fn store_with(ids: &[&str]) -> Store {
    let mut s = Store::new();
    for id in ids {
        s.interviews.insert(id.to_string(), Interview { id: id.to_string() });
    }
    s
}

#[test]
fn prefix_lookup() {
    let s = store_with(&["beeeb896", "beef0001", "c0ffee00"]);
    assert_eq!(s.find_id_by_prefix("c0"), Some("c0ffee00".to_string()));
    assert_eq!(s.find_id_by_prefix("bee"), None);
    assert_eq!(s.find_id_by_prefix("beeeb"), Some("beeeb896".to_string()));
    assert_eq!(s.find_id_by_prefix("zz"), None);
    assert_eq!(s.find_by_prefix("c0ff").map(|i| i.id.clone()), Some("c0ffee00".to_string()));
    assert!(s.find_by_prefix("be").is_none());
}

#[test]
fn exact_id_wins_over_prefix() {
    let s = store_with(&["ab", "abc"]);
    assert_eq!(s.find_id_by_prefix("ab"), Some("ab".to_string()));
    assert_eq!(s.find_by_prefix("ab").map(|i| i.id.clone()), Some("ab".to_string()));
    assert_eq!(s.find_id_by_prefix("abc"), Some("abc".to_string()));
}

// ── Configuration ────────────────────────────────────────────────────────────

#[test]
fn interviewer_name_sources() {
    let cfg = Config { interviewer: Some("  Dana ".to_string()) };
    assert_eq!(interviewer_name(Some(" Hamza ".to_string()), Some(Config { interviewer: None })), "Hamza");
    assert_eq!(interviewer_name(Some("   ".to_string()), Some(cfg)), "Dana");
    assert_eq!(interviewer_name(None, None), "Interviewer");
    assert_eq!(interviewer_name(None, Some(Config { interviewer: Some("".to_string()) })), "Interviewer");
}

#[test]
fn setup_needed_only_without_any_name() {
    assert!(needs_setup(&None, &Config { interviewer: None }));
    assert!(needs_setup(&Some(" ".to_string()), &Config { interviewer: Some("\t".to_string()) }));
    assert!(!needs_setup(&Some("x".to_string()), &Config { interviewer: None }));
    assert!(!needs_setup(&None, &Config { interviewer: Some("y".to_string()) }));
    assert_eq!(nonempty(&Some("  z  ".to_string())), Some("z".to_string()));
    assert_eq!(nonempty(&Some("   ".to_string())), None);
}

// ── Command line ─────────────────────────────────────────────────────────────

#[test]
fn parse_num_accepts_four_counts() {
    assert!(matches!(parse_num("3,3,2,2"), Ok([3, 3, 2, 2])));
    assert!(matches!(parse_num(" 1, 2 ,0,255"), Ok([1, 2, 0, 255])));
}

#[test]
fn parse_num_refusals() {
    assert!(matches!(parse_num("1,2,3"), Err(NumError::WrongCount)));
    assert!(matches!(parse_num("1,2,3,4,5"), Err(NumError::WrongCount)));
    match parse_num("1, x,3,4") {
        Err(NumError::Invalid(p)) => assert_eq!(p, " x"),
        _ => panic!("invalid part expected"),
    }
    match parse_num("1,2,256,4") {
        Err(NumError::Invalid(p)) => assert_eq!(p, "256"),
        _ => panic!("invalid part expected"),
    }
    match parse_num("1,2,3,") {
        Err(NumError::Invalid(p)) => assert_eq!(p, ""),
        _ => panic!("invalid part expected"),
    }
}

#[test]
fn listing_cells() {
    assert_eq!(truncate_str("Alice", 21), "Alice");
    assert_eq!(truncate_str("hello world", 5), "hell…");
    assert_eq!(truncate_str("abc", 0), "…");
    assert!(cut_is_ok("hello world", 5));
    assert!(!cut_is_ok("héllo world", 3));
    assert!(cut_is_ok("héllo world", 2));
}

#[test]
fn export_plans() {
    match export_plan("json", 7, false) {
        Ok(p) => {
            assert!(p.format == ExportFormat::Json);
            assert_eq!(p.default_name, "7.json");
        },
        Err(_) => panic!("plan expected"),
    }
    match export_plan("pdf", 12, false) {
        Ok(p) => {
            assert!(p.format == ExportFormat::Pdf);
            assert_eq!(p.default_name, "12.pdf");
        },
        Err(_) => panic!("plan expected"),
    }
    match export_plan("html", -3, true) {
        Ok(p) => assert_eq!(p.default_name, "-3.html"),
        Err(_) => panic!("plan expected"),
    }
    assert!(matches!(export_plan("pdf", 1, true), Err(ExportError::ClipboardPdf)));
    match export_plan("xml", 1, false) {
        Err(ExportError::UnknownFormat(f)) => assert_eq!(f, "xml"),
        _ => panic!("unknown format expected"),
    }
    assert!(export_plan("csv", 1, true).is_ok());
}

#[test]
fn start_plans() {
    assert!(matches!(start_plan(Some(4), None, None), Ok(StartPlan::Resume { id: 4 })));
    assert!(matches!(
        start_plan(Some(4), Some("Bo".to_string()), Some("r".to_string())),
        Ok(StartPlan::Resume { id: 4 })
    ));
    match start_plan(None, Some("Bo".to_string()), Some("Senior Rust Engineer".to_string())) {
        Ok(StartPlan::Fresh { name, role }) => {
            assert_eq!(name, "Bo");
            assert_eq!(role, "senior-rust-engineer");
        },
        _ => panic!("fresh interview expected"),
    }
    assert!(matches!(start_plan(None, None, Some("r".to_string())), Err(StartError::MissingName)));
    assert!(matches!(start_plan(None, Some("n".to_string()), None), Err(StartError::MissingRole)));
}

// ── Generation ───────────────────────────────────────────────────────────────

#[test]
fn generated_headings_are_marked() {
    let raw = "  ## [1] What is a token?\n- 1: unit\n## [2] [AI] Already marked?\n  ## [3]   Spaced?  \nplain  ";
    match finish_generated(raw) {
        Ok(s) => assert_eq!(
            s,
            "## [1] [AI] What is a token?\n- 1: unit\n## [2] [AI] Already marked?\n## [3] [AI] Spaced?\nplain"
        ),
        Err(_) => panic!("bank expected"),
    }
}

#[test]
fn generated_fence_is_removed() {
    let raw = "```markdown\n# nlp\n\n## [1] Q?\n- 1: k\n```";
    match finish_generated(raw) {
        Ok(s) => assert_eq!(s, "# nlp\n\n## [1] [AI] Q?\n- 1: k"),
        Err(_) => panic!("bank expected"),
    }
}

#[test]
fn generated_without_questions_is_refused() {
    assert!(matches!(finish_generated("Sorry, I cannot help."), Err(GenError::NoQuestions)));
    assert!(matches!(finish_generated(""), Err(GenError::NoQuestions)));
}

#[test]
fn generated_bank_reads_back_as_ai_questions() {
    let s = match finish_generated("## [1] One?\n- 1: a\n## [4] Four?\n") {
        Ok(s) => s,
        Err(_) => panic!("bank expected"),
    };
    let qs = parse_topic_file("t", &s);
    assert_eq!(qs.len(), 2);
    assert!(qs.iter().all(|q| q.ai_generated));
    assert_eq!(count_levels(&s), [1, 0, 0, 1]);
}

#[test]
fn finishing_twice_marks_once() {
    let once = finish_generated("## [1] One?\n- 1: a\n## [2]  Two?").expect("bank");
    let twice = finish_generated(&once).expect("bank");
    assert_eq!(once, "## [1] [AI] One?\n- 1: a\n## [2] [AI] Two?");
    assert_eq!(twice, once);
}

#[test]
fn plus_sign_counts_parse() {
    assert!(matches!(parse_num("+1,2,3,4"), Ok([1, 2, 3, 4])));
    assert!(matches!(parse_num("-1,2,3,4"), Err(NumError::Invalid(_))));
}

#[test]
fn prompt_names_counts_and_slug() {
    let p = user_prompt("Deep Learning", [3, 2, 1, 0]);
    assert!(p.starts_with("Generate interview questions for the topic: Deep Learning\n\nGenerate exactly:\n- 3 level-1 questions"));
    assert!(p.contains("- 2 level-2 questions (intermediate, applied understanding)\n"));
    assert!(p.contains("- 0 level-4 questions (expert, research/architecture level)\n\n"));
    assert!(p.contains("no preamble):\n\n# deep-learning\n\n## [1] Question text?\n\n"));
    assert!(p.ends_with("- Output ONLY the markdown. No extra text before or after."));
}

// ── Report text ──────────────────────────────────────────────────────────────

#[test]
fn title_case_examples() {
    assert_eq!(title_case("machine-learning"), "Machine Learning");
    assert_eq!(title_case("nlp"), "NLP");
    assert_eq!(title_case("deep_learning  api"), "Deep Learning API");
    assert_eq!(title_case("rUST-systems"), "Rust Systems");
    assert_eq!(title_case("--"), "");
    assert_eq!(title_case("ü-ml"), "Ü ML");
}

#[test]
fn level_and_response_names() {
    assert_eq!(level_name(1), "Basic");
    assert_eq!(level_name(4), "Expert");
    assert_eq!(level_name(9), "—");
    assert_eq!(response_label(0), "Could not answer");
    assert_eq!(response_label(3), "Advanced");
    assert_eq!(response_label(200), "—");
}

#[test]
fn percentages_and_bands() {
    assert_eq!(percent(10, 24), 41);
    assert_eq!(percent(5, 0), 0);
    assert!(perf_band(75) == PerfBand::Success);
    assert!(perf_band(74) == PerfBand::Primary);
    assert!(perf_band(25) == PerfBand::Warning);
    assert!(perf_band(24) == PerfBand::Danger);
}

#[test]
fn html_escaping() {
    assert_eq!(esc("<a href=\"x\">Tom & Jerry</a>"), "&lt;a href=&quot;x&quot;&gt;Tom &amp; Jerry&lt;/a&gt;");
    assert_eq!(esc("plain"), "plain");
    let e = esc("<<\"\">>");
    assert!(!e.contains('<') && !e.contains('>') && !e.contains('"'));
}

#[test]
fn names_order_like_strings() {
    assert!(str_lt("alpha", "beta"));
    assert!(str_lt("ab", "abc"));
    assert!(!str_lt("abc", "ab"));
    assert!(!str_lt("same", "same"));
    assert!(str_lt("Zeta", "alpha"));
}

fn ranked_topics() -> (Vec<TopicData>, Responses) {
    let a = TopicData { name: "beta".to_string(), questions: vec![q("beta", 1, "b1", false)] };
    let b = TopicData { name: "alpha".to_string(), questions: vec![q("alpha", 1, "a1", false)] };
    let c = TopicData { name: "gamma".to_string(), questions: vec![q("gamma", 2, "g1", false)] };
    let d = TopicData { name: "delta".to_string(), questions: vec![q("delta", 1, "d1", false)] };
    let e = TopicData { name: "omega".to_string(), questions: vec![q("omega", 1, "o1", false)] };
    let r = responses(&[
        (&a.questions[0].id, 2),
        (&b.questions[0].id, 2),
        (&c.questions[0].id, 4),
        (&d.questions[0].id, 1),
    ]);
    (vec![a, b, c, d, e], r)
}

#[test]
fn best_topics_first_ties_by_name() {
    let (ts, r) = ranked_topics();
    let top = top_topics(&ts, &r);
    assert_eq!(top, vec![(2, 100), (1, 50), (0, 50)]);
}

#[test]
fn unanswered_topics_are_not_ranked() {
    let (ts, r) = ranked_topics();
    let only = &ts[3..];
    let top = top_topics(only, &r);
    assert_eq!(top, vec![(0, 25)]);
    assert!(top_topics(&ts[4..], &r).is_empty());
}

#[test]
fn breakdown_groups_by_level() {
    let t = TopicData {
        name: "rust".to_string(),
        questions: vec![
            q("rust", 3, "c", false),
            q("rust", 1, "a", false),
            q("rust", 3, "d", true),
            q("rust", 2, "b", false),
        ],
    };
    let r = responses(&[(&t.questions[0].id, 1), (&t.questions[1].id, 2), (&t.questions[2].id, 0)]);
    let g = level_groups(&t, &r);
    assert_eq!(g, vec![(1, vec![1]), (3, vec![0, 2])]);
    assert!(level_groups(&t, &StrMap::new()).is_empty());
}

#[test]
fn report_lines() {
    let t = rust_topic();
    let r = responses(&[(&t.questions[0].id, 4), (&t.questions[2].id, 2)]);
    assert_eq!(topic_stats(&t, &r), "2/3 q  ·  10/24 pts  ·  41%");
    assert_eq!(level_tag(2, 1), "LEVEL 2  ·  1 question");
    assert_eq!(level_tag(4, 3), "LEVEL 4  ·  3 questions");
    assert_eq!(level_tag(1, 0), "LEVEL 1  ·  0 questions");
    let ts = vec![t];
    let (a, b, c) = stat_cards(&ts, &r);
    assert_eq!((a.as_str(), b.as_str(), c.as_str()), ("10/24", "41%", "2/3"));
}

// ── Exports ──────────────────────────────────────────────────────────────────

#[test]
fn csv_export_records_and_text() {
    let c = candidate();
    let t = TopicData {
        name: "rust".to_string(),
        questions: vec![q("rust", 2, "What is ownership?", false), q("rust", 1, "Say \"hi\", then go", false)],
    };
    let r = responses(&[(&t.questions[0].id, 3)]);
    let ts = vec![t];
    let data = ExportData { candidate: &c, topics: &ts, responses: &r };
    let recs = csv_records(&data);
    assert_eq!(recs.len(), 3);
    assert_eq!(recs[0][0], "candidate_id");
    assert_eq!(recs[0][8], "max_score");
    assert_eq!(
        recs[1],
        vec!["7", "Alice Chen", "rust-engineer", "rust", "2", "What is ownership?", "3", "6", "8"]
    );
    assert_eq!(recs[2][6..], ["0".to_string(), "0".to_string(), "4".to_string()]);
    let text = to_csv(&data).expect("csv text");
    assert_eq!(
        text,
        "candidate_id,name,role,topic,q_level,question,score,question_score,max_score\n\
         7,Alice Chen,rust-engineer,rust,2,What is ownership?,3,6,8\n\
         7,Alice Chen,rust-engineer,rust,1,\"Say \"\"hi\"\", then go\",0,0,4\n"
    );
}

#[test]
fn csv_export_without_topics_has_header_only() {
    let c = candidate();
    let ts: Vec<TopicData> = vec![];
    let r = StrMap::new();
    let data = ExportData { candidate: &c, topics: &ts, responses: &r };
    assert_eq!(
        to_csv(&data).expect("csv text"),
        "candidate_id,name,role,topic,q_level,question,score,question_score,max_score\n"
    );
}

fn html_fixture() -> (Candidate, Vec<TopicData>, Responses) {
    let mut c = candidate();
    c.name = "Alice <Admin>".to_string();
    let t = TopicData {
        name: "rust".to_string(),
        questions: vec![
            make_question(
                "rust",
                2,
                "Why & how?",
                [vec!["own".to_string(), "borrow".to_string()], vec![], vec!["pin".to_string()], vec![]],
                false,
            ),
            q("rust", 1, "Unasked", false),
        ],
    };
    let r = responses(&[(&t.questions[0].id, 3)]);
    (c, vec![t], r)
}

#[test]
fn html_report_content() {
    let (c, ts, r) = html_fixture();
    let data = ExportData { candidate: &c, topics: &ts, responses: &r };
    let h = html_report(&data, "March 05, 2024");
    assert!(h.starts_with("<!DOCTYPE html>\n<html lang=\"en\">\n<head>\n<meta charset=\"UTF-8\">\n<title>Interview Report — Alice &lt;Admin&gt;</title>\n<style>\n"));
    assert!(h.contains("<p class=\"meta\"><strong>Alice &lt;Admin&gt;</strong> · rust-engineer · March 05, 2024</p>"));
    assert!(h.contains("<div class=\"value\">6/8</div>"));
    assert!(h.contains("<div class=\"value\">75%</div>"));
    assert!(h.contains("<div class=\"value\">1/2</div>"));
    assert!(h.contains("<tbody><tr><td>rust</td><td>1/2</td><td>6/8</td><td>75%</td></tr>\n</tbody>\n</table>\n<h2>rust</h2>"));
    assert!(h.contains("<tr><td>[L2]</td><td>Why &amp; how?</td><td>3</td><td>6/8</td><td><b>[1]</b> own, borrow  <b>[3]</b> pin</td></tr>\n"));
    assert!(h.contains("<tr><td>[L1]</td><td>Unasked</td><td>0</td><td>0/4</td><td></td></tr>\n</tbody></table>\n</body>\n</html>"));
    assert!(h.contains("  body { font-family: system-ui, sans-serif;"));
}

#[test]
fn html_export_dates_the_report() {
    let (c, ts, r) = html_fixture();
    let data = ExportData { candidate: &c, topics: &ts, responses: &r };
    let h = to_html(&data).expect("report");
    assert!(h.contains("rust-engineer · March 05, 2024</p>"));
    let bad = Candidate { created_at: "yesterday".to_string(), ..candidate() };
    let data = ExportData { candidate: &bad, topics: &ts, responses: &r };
    assert!(to_html(&data).is_none());
}

// ── Screen text ──────────────────────────────────────────────────────────────

#[test]
fn screen_cells() {
    assert_eq!(truncate("deep-learning", 6), "deep-…");
    assert_eq!(truncate("nlp", 6), "nlp");
    assert_eq!(truncate("nlp", 0), "");
    assert_eq!(pct_resp_str(10, 20, 3), " 50% (3)");
    assert_eq!(pct_resp_str(0, 0, 0), "  —% (0)");
    assert_eq!(pct_resp_str(12, 12, 2), "100% (2)");
    assert_eq!(card_title(2, 0, 5), "[L2] Q1/5 ");
    assert_eq!(score_mark(None), "  ");
    assert_eq!(score_mark(Some(3)), "3 ");
    assert_eq!(section_label(3, false), " ADVANCED · L3 ");
    assert_eq!(section_label(1, true), " ✦ AI BASIC · L1 ");
}

#[test]
fn keyword_lines() {
    let (l, t) = keyword_line(0, &["a".to_string(), "b".to_string()], 40);
    assert_eq!((l.as_str(), t.as_str()), ("[1]", " a, b"));
    let (l, t) = keyword_line(3, &[], 40);
    assert_eq!((l.as_str(), t.as_str()), ("[4]", " —"));
    let (_, t) = keyword_line(1, &["abcdefgh".to_string()], 10);
    assert_eq!(t, " abcd…");
}

#[test]
fn diff_cells_count_answered_per_level() {
    let t = rust_topic();
    let r = responses(&[(&t.questions[0].id, 1), (&t.questions[2].id, 0)]);
    assert_eq!(diff_str_topic(&t, &r), " 1 0 1 0");
    let ts = vec![t, rust_topic()];
    assert_eq!(diff_str_topics(&ts, &r), " 2 0 2 0");
    assert_eq!(written_count(&ts[0].questions), 2);
}

#[test]
fn search_line_tail() {
    let mut s = SearchState::new(SearchScope::AllTopics);
    assert_eq!(search_status(&s), "");
    s.query = "zz".to_string();
    assert_eq!(search_status(&s), "  no matches");
}

// ── Filters and search ───────────────────────────────────────────────────────

#[test]
fn filter_labels_and_matching() {
    let f = Filter::none();
    assert!(!f.is_active());
    assert_eq!(f.label(), "");
    let g = Filter { level: Some(2), source: Some(FilterSource::Ai) };
    assert!(g.is_active());
    assert_eq!(g.label(), "L2·AI");
    assert_eq!(Filter { level: None, source: Some(FilterSource::User) }.label(), "USER");
    assert_eq!(Filter { level: Some(4), source: None }.label(), "L4");
    let t = rust_topic();
    assert!(f.matches(&t.questions[2]));
    assert!(!g.matches(&t.questions[1]));
    assert!(Filter { level: Some(3), source: Some(FilterSource::Ai) }.matches(&t.questions[2]));
    assert!(!Filter { level: None, source: Some(FilterSource::User) }.matches(&t.questions[2]));
}

#[test]
fn query_matches_text_and_keywords() {
    let qq = make_question(
        "nlp",
        1,
        "What is BPE?",
        [vec![], vec!["Byte Pair Encoding".to_string()], vec![], vec![]],
        false,
    );
    assert!(question_matches_query(&qq, "bpe"));
    assert!(question_matches_query(&qq, "pair enc"));
    assert!(!question_matches_query(&qq, "wordpiece"));
    assert!(question_matches_query(&qq, ""));
}

#[test]
fn search_recompute_and_cursor() {
    let ts = vec![rust_topic(), TopicData { name: "nlp".to_string(), questions: parse_topic_file("nlp", EXAMPLE_BANK) }];
    let mut s = SearchState::new(SearchScope::AllTopics);
    s.query = "WHAT".to_string();
    s.cursor = 9;
    s.recompute(&ts, 0);
    assert_eq!(s.matches, vec![(0, 0), (1, 0), (1, 1)]);
    assert_eq!(s.cursor, 2);
    let mut t = SearchState::new(SearchScope::TopicName);
    t.query = "n".to_string();
    t.recompute(&ts, 0);
    assert_eq!(t.matches, vec![(1, 0)]);
    assert_eq!(t.prefix_char(), 't');
    let mut i = SearchState::new(SearchScope::InTopic);
    i.query = "pin".to_string();
    i.recompute(&ts, 0);
    assert_eq!(i.matches, vec![(0, 2)]);
    assert_eq!(i.prefix_char(), '/');
}

#[test]
fn offering_order_puts_written_first_by_level() {
    let mut qs = vec![
        q("x", 3, "c", true),
        q("x", 2, "b", false),
        q("x", 1, "a", true),
        q("x", 1, "d", false),
    ];
    reorder_questions(&mut qs);
    let keys: Vec<(bool, u8)> = qs.iter().map(|q| (q.ai_generated, q.level)).collect();
    assert_eq!(keys, vec![(false, 1), (false, 2), (true, 1), (true, 3)]);
}

// ── Session ──────────────────────────────────────────────────────────────────

fn session() -> AppState {
    let t1 = TopicData {
        name: "rust".to_string(),
        questions: vec![q("rust", 2, "Explain lifetimes.", false), q("rust", 1, "What is ownership?", false), q("rust", 3, "How does Pin work?", true)],
    };
    let t2 = TopicData { name: "nlp".to_string(), questions: parse_topic_file("nlp", EXAMPLE_BANK) };
    AppState::new(candidate(), vec![t1, t2], StrMap::new())
}

#[test]
fn new_session_is_at_the_start() {
    let app = session();
    assert_eq!(app.current_topic, 0);
    assert_eq!(app.current_question, 0);
    assert!(app.search.is_none() && !app.should_quit && app.key_seq.is_none());
    let texts: Vec<&str> = app.topics[0].questions.iter().map(|q| q.text.as_str()).collect();
    assert_eq!(texts, vec!["What is ownership?", "Explain lifetimes.", "How does Pin work?"]);
    assert_eq!(app.topic_questions(), vec![0, 1, 2]);
    assert_eq!(app.total_questions(), 6);
}

#[test]
fn scoring_keys_record_and_clear() {
    let mut app = session();
    let id = app.topics[0].questions[0].id.clone();
    match app.handle_key(Key::Char('3'), false) {
        Some(Effect::Save(r)) => {
            assert_eq!((r.candidate_id, r.question_id.as_str(), r.score), (7, id.as_str(), 3));
        },
        _ => panic!("save expected"),
    }
    assert_eq!(app.responses.get(&id), Some(&3));
    assert_eq!(app.total_score(), 3);
    assert_eq!(app.total_answered(), 1);
    assert_eq!(app.total_max(), 4);
    match app.handle_key(Key::Char('-'), false) {
        Some(Effect::Delete { candidate_id, question_id }) => {
            assert_eq!((candidate_id, question_id.as_str()), (7, id.as_str()));
        },
        _ => panic!("delete expected"),
    }
    assert!(!app.responses.contains_key(&id));
}

#[test]
fn navigation_keys() {
    let mut app = session();
    assert!(app.handle_key(Key::Down, false).is_none());
    assert_eq!(app.current_question, 1);
    app.handle_key(Key::Char('j'), false);
    app.handle_key(Key::Char('j'), false);
    assert_eq!(app.current_question, 2);
    app.handle_key(Key::Char('k'), false);
    assert_eq!(app.current_question, 1);
    app.handle_key(Key::Right, false);
    assert_eq!(app.current_topic, 1);
    assert_eq!(app.current_question, 1);
    app.handle_key(Key::Char('l'), false);
    assert_eq!(app.current_topic, 1);
    app.handle_key(Key::Char('h'), false);
    assert_eq!(app.current_topic, 0);
    app.handle_key(Key::Tab, false);
    assert_eq!(app.current_question, 2);
    app.handle_key(Key::Tab, false);
    assert_eq!(app.current_question, 0);
    app.handle_key(Key::BackTab, false);
    assert_eq!(app.current_question, 2);
}

#[test]
fn quit_keys() {
    let mut app = session();
    app.handle_key(Key::Char('c'), false);
    assert!(!app.should_quit);
    app.handle_key(Key::Char('c'), true);
    assert!(app.should_quit);
    let mut app = session();
    app.handle_key(Key::Char('q'), false);
    assert!(app.should_quit);
}

#[test]
fn filter_keys() {
    let mut app = session();
    app.handle_key(Key::Char('f'), false);
    assert_eq!(app.header_status(), "[f_] 3");
    app.handle_key(Key::Char('a'), false);
    assert_eq!(app.header_status(), "[fa_] 3");
    app.handle_key(Key::Char('a'), false);
    assert_eq!(app.filter.source, Some(FilterSource::Ai));
    assert_eq!(app.topic_questions(), vec![2]);
    assert_eq!(app.header_status(), "[AI] 1/3");
    app.handle_key(Key::Char('F'), false);
    assert!(!app.filter.is_active());
    assert_eq!(app.header_status(), "3");
    app.handle_key(Key::Char('f'), false);
    app.handle_key(Key::Char('2'), false);
    assert_eq!(app.filter.level, Some(2));
    assert_eq!(app.topic_questions(), vec![1]);
    app.handle_key(Key::Char('f'), false);
    app.handle_key(Key::Char('z'), false);
    assert_eq!(app.filter.level, Some(2));
    assert_eq!(app.header_status(), "[L2] 1/3");
}

#[test]
fn search_keys() {
    let mut app = session();
    app.handle_key(Key::Char('?'), false);
    assert!(app.search.is_some());
    for c in "what".chars() {
        app.handle_key(Key::Char(c), false);
    }
    assert_eq!(app.current_topic, 0);
    assert_eq!(app.current_question, 0);
    app.handle_key(Key::Tab, false);
    assert_eq!(app.current_topic, 1);
    assert!(app.is_current_search_match(1, 0));
    assert!(app.topic_search_is_match(0));
    app.handle_key(Key::Backspace, false);
    assert_eq!(app.search.as_ref().map(|s| s.query.clone()), Some("wha".to_string()));
    app.handle_key(Key::Esc, false);
    assert!(app.search.is_none());
}

#[test]
fn topic_search_opens_single_match() {
    let mut app = session();
    app.handle_key(Key::Char('t'), false);
    app.handle_key(Key::Char('n'), false);
    assert!(app.search.is_none());
    assert_eq!(app.current_topic, 1);
}

#[test]
fn random_jump_lands_on_unscored_question() {
    let mut app = session();
    let ids: Vec<String> = app.topics[0].questions.iter().map(|q| q.id.clone()).collect();
    app.responses.insert(ids[0].clone(), 2);
    app.responses.insert(ids[1].clone(), 2);
    app.handle_key(Key::Char('r'), false);
    assert_eq!(app.key_seq, Some('r'));
    app.handle_key(Key::Char('r'), false);
    assert_eq!(app.current_topic, 0);
    assert_eq!(app.current_question, 2);
    app.handle_key(Key::Char('R'), false);
    app.handle_key(Key::Char('A'), false);
    assert_eq!(app.current_topic, 0);
    assert_eq!(app.current_question, 2);
}

#[test]
fn selection_overrun_is_detected() {
    let mut app = session();
    app.current_question = 3;
    assert!(app.selection_overrun(Key::Char('1')));
    assert!(app.selection_overrun(Key::Tab));
    assert!(!app.selection_overrun(Key::Down));
    app.current_question = 2;
    assert!(!app.selection_overrun(Key::Char('1')));
}

#[test]
fn card_slots_fill_the_panel() {
    let keys = [(false, 1), (false, 1), (false, 2)];
    let (slots, n) = card_slots(&keys, 0, 20);
    assert_eq!(
        slots,
        vec![
            Slot::Separator { y: 0, index: 0 },
            Slot::Card { y: 1, index: 0 },
            Slot::Card { y: 8, index: 1 },
            Slot::Separator { y: 15, index: 2 },
        ]
    );
    assert_eq!(n, 2);
    let (slots, n) = card_slots(&keys, 1, 30);
    assert_eq!(
        slots,
        vec![
            Slot::Separator { y: 0, index: 1 },
            Slot::Card { y: 1, index: 1 },
            Slot::Separator { y: 8, index: 2 },
            Slot::Card { y: 9, index: 2 },
        ]
    );
    assert_eq!(n, 2);
}

#[test]
fn card_slots_small_panels() {
    let keys = [(true, 3)];
    assert_eq!(card_slots(&keys, 0, 0), (vec![], 1));
    assert_eq!(card_slots(&keys, 0, 5), (vec![Slot::Separator { y: 0, index: 0 }], 1));
    assert_eq!(card_slots(&keys, 4, 50), (vec![], 1));
    assert_eq!(card_slots(&[], 0, 50), (vec![], 1));
}

// ── Laws on concrete values ──────────────────────────────────────────────────

#[test]
fn all_answered_asks_the_maximum() {
    let t = rust_topic();
    let r = responses(&[(&t.questions[0].id, 1), (&t.questions[1].id, 0), (&t.questions[2].id, 4)]);
    assert_eq!(t.max_score_asked(&r), t.max_score());
    assert_eq!(t.max_score_asked(&r), 24);
}

#[test]
fn nothing_recorded_gives_zeros() {
    let t = rust_topic();
    let r = StrMap::new();
    assert_eq!(t.max_score_asked(&r), 0);
    assert_eq!(t.score(&r), 0);
    assert_eq!(t.answered(&r), 0);
}

#[test]
fn inserting_a_response_adds_its_questions() {
    let t = rust_topic();
    let mut r = responses(&[(&t.questions[0].id, 2)]);
    assert_eq!(t.answered(&r), 1);
    r.insert(t.questions[2].id.clone(), 3);
    assert_eq!(t.answered(&r), 2);
    r.insert("elsewhere".to_string(), 3);
    assert_eq!(t.answered(&r), 2);
}

#[test]
fn id_lookup_agrees_with_interview_lookup() {
    let s = store_with(&["beeeb896", "beef0001"]);
    assert_eq!(s.find_id_by_prefix("beee"), Some("beeeb896".to_string()));
    assert_eq!(s.find_id_by_prefix("beef0001"), Some("beef0001".to_string()));
    assert_eq!(s.find_id_by_prefix("bee"), None);
    assert_eq!(s.find_id_by_prefix("x"), None);
    for p in ["beee", "beef0001", "bee", "x", ""] {
        assert_eq!(s.find_id_by_prefix(p), s.find_by_prefix(p).map(|i| i.id.clone()));
    }
}

#[test]
fn counted_levels_equal_parsed_when_every_heading_has_text() {
    let content = "## [1] A?\n## [2] B?\n## [2] C?\n## [4] [AI] D?\nplain\n";
    let qs = parse_topic_file("t", content);
    let counts = count_levels(content);
    for l in 1..=4u8 {
        let parsed = qs.iter().filter(|q| q.level == l).count();
        assert_eq!(parsed, counts[(l - 1) as usize]);
    }
    assert_eq!(counts, [1, 2, 0, 1]);
}

#[test]
fn slug_of_lower_text() {
    assert_eq!(slug_of_lower("c++ & rust!"), "c--rust");
    assert_eq!(slug_of_lower("data_science tools"), "data-science-tools");
    assert_eq!(slug_of_lower(&slug_of_lower("a b_c!")), slug_of_lower("a b_c!"));
}

#[test]
fn slugify_twice_is_slugify_once() {
    for s in ["Data Science", "C++ & Rust!", "machine_learning", "  Mixed CASE  "] {
        let once = slugify(s);
        assert_eq!(slugify(&once), once);
        assert!(once.chars().all(|c| (c.is_alphanumeric() || c == '-') && !c.is_ascii_uppercase()));
    }
}

#[test]
fn generated_reply_keeps_level_counts() {
    let raw = "```md\n## [1] Q?\n```";
    let r = finish_generated(raw).expect("bank");
    assert_eq!(r, "## [1] [AI] Q?");
    assert_eq!(count_levels(&r), count_levels(raw));
    let raw2 = "  ## [1] A?\n## [3] B?\n  ## [3] [AI] C?\n## [] no\n";
    let r2 = finish_generated(raw2).expect("bank");
    assert_eq!(count_levels(&r2), count_levels(raw2));
    assert_eq!(count_levels(&r2), [1, 0, 2, 0]);
}

// ── JSON document ────────────────────────────────────────────────────────────

fn keys(j: &Json) -> Vec<String> {
    match j {
        Json::Object(m) => m.iter().map(|(k, _)| k.clone()).collect(),
        _ => panic!("object expected"),
    }
}

fn at<'a>(j: &'a Json, key: &str) -> &'a Json {
    match j {
        Json::Object(m) => &m.iter().find(|(k, _)| k == key).expect("key").1,
        _ => panic!("object expected"),
    }
}

fn number(j: &Json) -> u64 {
    match j {
        Json::Nat(n) => *n,
        _ => panic!("number expected"),
    }
}

fn text(j: &Json) -> String {
    match j {
        Json::Text(s) => s.clone(),
        _ => panic!("string expected"),
    }
}

#[test]
fn question_document() {
    let mut question = q("rust", 2, "Explain lifetimes.", false);
    question.keywords[1] = vec!["borrow".to_string(), "scope".to_string()];
    let r = responses(&[(&question.id, 3)]);
    let j = question_json(&question, &r);
    assert_eq!(keys(&j), ["id", "level", "text", "score", "question_score", "max_score", "keywords"]);
    assert_eq!(text(at(&j, "id")), question.id);
    assert_eq!(number(at(&j, "level")), 2);
    assert_eq!(text(at(&j, "text")), "Explain lifetimes.");
    assert_eq!(number(at(&j, "score")), 3);
    assert_eq!(number(at(&j, "question_score")), 6);
    assert_eq!(number(at(&j, "max_score")), 8);
    let kw = at(&j, "keywords");
    assert_eq!(keys(kw), ["1", "2", "3", "4"]);
    match at(kw, "2") {
        Json::List(v) => assert_eq!(v.iter().map(text).collect::<Vec<_>>(), ["borrow", "scope"]),
        _ => panic!("list expected"),
    }
}

#[test]
fn topic_document() {
    let t = rust_topic();
    let r = responses(&[(&t.questions[0].id, 4), (&t.questions[2].id, 2)]);
    let j = topic_json(&t, &r);
    assert_eq!(keys(&j), ["name", "answered", "total_questions", "score", "max_score", "questions"]);
    assert_eq!(text(at(&j, "name")), "rust");
    assert_eq!(number(at(&j, "answered")), 2);
    assert_eq!(number(at(&j, "total_questions")), 3);
    assert_eq!(number(at(&j, "score")), 10);
    assert_eq!(number(at(&j, "max_score")), 16);
    match at(&j, "questions") {
        Json::List(v) => assert_eq!(v.len(), 3),
        _ => panic!("list expected"),
    }
}

#[test]
fn export_document() {
    let a = rust_topic();
    let r = responses(&[(&a.questions[1].id, 3)]);
    let ts = vec![a];
    let c = candidate();
    let data = ExportData { candidate: &c, topics: &ts, responses: &r };
    let j = export_json(&data);
    assert_eq!(keys(&j), ["candidate", "summary", "topics"]);
    let cj = at(&j, "candidate");
    assert_eq!(keys(cj), ["id", "name", "role", "created_at"]);
    assert!(matches!(at(cj, "id"), Json::Int(7)));
    assert_eq!(text(at(cj, "name")), "Alice Chen");
    assert_eq!(text(at(cj, "created_at")), "2024-03-05T10:30:00+00:00");
    let sj = at(&j, "summary");
    assert_eq!(keys(sj), ["total_score", "total_max", "total_answered", "total_questions"]);
    assert_eq!(
        (number(at(sj, "total_score")), number(at(sj, "total_max")), number(at(sj, "total_answered")), number(at(sj, "total_questions"))),
        (6, 8, 1, 3)
    );
}

#[test]
fn lowered_text_and_keywords_match() {
    let kws: [Vec<String>; 4] = [vec![], vec!["borrow checker".to_string()], vec![], vec!["pin".to_string()]];
    assert!(lowered_matches("what is ownership?", &kws, ""));
    assert!(lowered_matches("what is ownership?", &kws, "owner"));
    assert!(lowered_matches("what is ownership?", &kws, "checker"));
    assert!(lowered_matches("what is ownership?", &kws, "pin"));
    assert!(!lowered_matches("what is ownership?", &kws, "lifetime"));
}

#[test]
fn styled_words() {
    let w: Vec<char> = "rUST".chars().collect();
    let upper = vec!['R'];
    let lowers = vec![vec!['u'], vec!['s'], vec!['t']];
    assert_eq!(styled_word(&w, &upper, &lowers).into_iter().collect::<String>(), "Rust");
    let acronym: Vec<char> = "nlp".chars().collect();
    assert_eq!(styled_word(&acronym, &vec!['N'], &vec![vec!['l'], vec!['p']]).into_iter().collect::<String>(), "NLP");
    assert!(styled_word(&vec![], &vec![], &vec![]).is_empty());
}

#[test]
fn csv_quotes_line_breaks_and_keeps_empty_fields() {
    let mut c = candidate();
    c.name = "Ann\nLee".to_string();
    c.role = "".to_string();
    let ts: Vec<TopicData> = vec![TopicData {
        name: "a\rb".to_string(),
        questions: vec![q("a", 1, "Why?", false)],
    }];
    let r = StrMap::new();
    let data = ExportData { candidate: &c, topics: &ts, responses: &r };
    let text = to_csv(&data).expect("csv text");
    let second = text.split_once('\n').map(|(_, rest)| rest).expect("two records");
    assert_eq!(second, "7,\"Ann\nLee\",,\"a\rb\",1,Why?,0,0,4\n");
}

#[test]
fn ascii_slugs_and_titles() {
    assert_eq!(slugify("Data Science"), "data-science");
    assert_eq!(slugify(""), "");
    assert_eq!(slugify(&slugify("Senior_Rust Engineer!")), slugify("Senior_Rust Engineer!"));
    assert_eq!(title_case("nlp_basics"), "NLP Basics");
    assert_eq!(title_case("MACHINE-learning"), "Machine Learning");
}

#[test]
fn append_answer() {
    assert!(judge::qb::confirms_append("a\n"));
    assert!(judge::qb::confirms_append("  a  "));
    assert!(!judge::qb::confirms_append("A\n"));
    assert!(!judge::qb::confirms_append("append"));
    assert!(!judge::qb::confirms_append(""));
}
