use hyper_scripter::config::{PromptLevel, Recent};
use hyper_scripter::error::Error;
use hyper_scripter::lookup::{
    compute_vis, do_list_query, do_script_query, do_script_query_strict, merge_hits, need_prompt, pattern_hits,
    DefaultListQueryHandler,
};
use hyper_scripter::query::{ListQuery, ScriptQuery};
use hyper_scripter::repo::{RecentFilter, ScriptRepo, Visibility};
use hyper_scripter::script::{ConcreteScriptName, ScriptInfo, ScriptName};
use hyper_scripter::script_type::ScriptType;
use hyper_scripter::tag::{Tag, TagSelector, TagSelectorGroup, TagSet};

fn info(id: i64, name: &str, tags: &[&str], time: i64) -> ScriptInfo {
    let mut set = TagSet::new();
    for t in tags {
        set.insert(Tag::new_unchecked(t.to_string()));
    }
    let name = match name.strip_prefix('.') {
        Some(n) => ScriptName::Anonymous(n.parse().unwrap()),
        None => ScriptName::Named(ConcreteScriptName::new_unchecked(name.to_string())),
    };
    ScriptInfo {
        id,
        hash: 0,
        name,
        ty: ScriptType::new_unchecked("sh".to_string()),
        tags: set,
        created_time: 0,
        read_time: time,
        write_time: time,
        exec_time: None,
        exec_done_time: None,
        neglect_time: None,
        humble_time: None,
        exec_count: 0,
    }
}

fn repo() -> ScriptRepo {
    let scripts = vec![
        info(1, "build", &["x"], 10),
        info(2, "build-docs", &["x"], 30),
        info(3, "secret", &["hide"], 40),
        info(4, "deploy", &["x"], 20),
    ];
    let mut sel = TagSelectorGroup::new();
    sel.push(TagSelector::from_str("all").unwrap());
    sel.push(TagSelector::from_str("+^hide!").unwrap());
    ScriptRepo::new(RecentFilter { recent: Recent::Timeless, archaeology: false }, scripts, &sel, 100)
}

fn q(s: &str) -> ScriptQuery {
    ScriptQuery::from_str(s).unwrap()
}

#[test]
fn visibility_of_a_bang() {
    assert_eq!(compute_vis(true), Visibility::All);
    assert_eq!(compute_vis(false), Visibility::Normal);
}

#[test]
fn prompt_levels() {
    assert!(need_prompt(PromptLevel::Always, false, false));
    assert!(!need_prompt(PromptLevel::Never, true, true));
    assert!(need_prompt(PromptLevel::Smart, true, false));
    assert!(need_prompt(PromptLevel::Smart, false, true));
    assert!(!need_prompt(PromptLevel::Smart, false, false));
    assert!(need_prompt(PromptLevel::OnMultiFuzz, false, true));
    assert!(!need_prompt(PromptLevel::OnMultiFuzz, true, false));
}

#[test]
fn script_queries_by_recency_and_name() {
    let r = repo();
    let (s, ask) = do_script_query(&q("^1"), &r, false, false, PromptLevel::Always).unwrap().unwrap();
    assert_eq!((s.id, ask), (2, false));
    let (s, _) = do_script_query(&q("^3"), &r, false, false, PromptLevel::Never).unwrap().unwrap();
    assert_eq!(s.id, 1);
    assert!(matches!(do_script_query(&q("^4"), &r, false, false, PromptLevel::Never), Err(Error::Empty)));
    let (s, _) = do_script_query(&q("^1!"), &r, false, false, PromptLevel::Never).unwrap().unwrap();
    assert_eq!(s.id, 3);
    let (s, ask) = do_script_query(&q("=deploy"), &r, false, false, PromptLevel::Always).unwrap().unwrap();
    assert_eq!((s.id, ask), (4, false));
    assert!(do_script_query(&q("=secret"), &r, false, false, PromptLevel::Never).unwrap().is_none());
    let (s, _) = do_script_query(&q("=secret"), &r, true, true, PromptLevel::Never).unwrap().unwrap();
    assert_eq!(s.id, 3);
}

#[test]
fn fuzzy_query_asks_as_the_level_says() {
    let r = repo();
    let (s, ask) = do_script_query(&q("depl"), &r, false, false, PromptLevel::Always).unwrap().unwrap();
    assert_eq!((s.id, ask), (4, true));
    let (s, ask) = do_script_query(&q("depl"), &r, false, true, PromptLevel::Always).unwrap().unwrap();
    assert_eq!((s.id, ask), (4, false));
    assert!(do_script_query(&q("zzzz"), &r, false, false, PromptLevel::Never).unwrap().is_none());
}

#[test]
fn strict_query_tells_why_nothing_was_found() {
    let r = repo();
    match do_script_query_strict(&q("=secret"), &r, PromptLevel::Never) {
        Err(Error::ScriptIsFiltered(name)) => assert_eq!(name, "secret"),
        other => panic!("{:?}", other.map(|x| x.0.id)),
    }
    match do_script_query_strict(&q("=nothing"), &r, PromptLevel::Never) {
        Err(Error::ScriptNotFound(name)) => assert_eq!(name, "=nothing"),
        other => panic!("{:?}", other.map(|x| x.0.id)),
    }
    match do_script_query_strict(&q("=nothing!"), &r, PromptLevel::Never) {
        Err(Error::ScriptNotFound(name)) => assert_eq!(name, "=nothing!"),
        other => panic!("{:?}", other.map(|x| x.0.id)),
    }
    assert_eq!(do_script_query_strict(&q("=build"), &r, PromptLevel::Never).unwrap().0.id, 1);
}

fn ids(v: &[&ScriptInfo]) -> Vec<i64> {
    v.iter().map(|s| s.id).collect()
}

#[test]
fn list_queries_join_their_hits_once() {
    let r = repo();
    let yes = |_: &ScriptInfo| true;
    let no = |_: &ScriptInfo| false;
    assert_eq!(ids(&do_list_query(&r, vec![], PromptLevel::Never, &yes).unwrap()), vec![1, 2, 4]);
    let queries = vec![ListQuery::from_str("build*").unwrap(), ListQuery::from_str("=build").unwrap()];
    assert_eq!(ids(&do_list_query(&r, queries, PromptLevel::Never, &yes).unwrap()), vec![1, 2]);
    let queries = vec![ListQuery::from_str("*!").unwrap()];
    assert_eq!(ids(&do_list_query(&r, queries, PromptLevel::Never, &yes).unwrap()), vec![1, 2, 4, 3]);
    let queries = vec![ListQuery::from_str("nope*").unwrap()];
    match do_list_query(&r, queries, PromptLevel::Never, &yes) {
        Err(Error::ScriptNotFound(s)) => assert_eq!(s, "nope*"),
        _ => panic!("a pattern matching nothing is an error"),
    }
    let queries = vec![ListQuery::from_str("depl").unwrap()];
    assert!(matches!(do_list_query(&r, queries, PromptLevel::Always, &no), Err(Error::DontFuzz)));
    let queries = vec![ListQuery::from_str("depl").unwrap()];
    assert_eq!(ids(&do_list_query(&r, queries, PromptLevel::Always, &yes).unwrap()), vec![4]);
}

#[test]
fn hits_are_merged_by_id() {
    let a = info(1, "a", &[], 0);
    let b = info(2, "b", &[], 0);
    let c = info(1, "c", &[], 0);
    let merged = merge_hits(vec![vec![&a, &b], vec![&c, &b], vec![]]);
    assert_eq!(ids(&merged), vec![1, 2]);
    assert_eq!(merged[0].name.key(), "a");
    assert!(merge_hits(vec![]).is_empty());
}

#[test]
fn patterns_match_whole_names() {
    let a = info(1, "abc", &[], 0);
    let b = info(2, "xabc", &[], 0);
    match ListQuery::from_str("ab*").unwrap() {
        ListQuery::Pattern(re, _, _) => assert_eq!(ids(&pattern_hits(&re, vec![&a, &b])), vec![1]),
        _ => panic!("a wildcard is a pattern"),
    }
}

#[test]
fn default_handler_flags() {
    assert!(DefaultListQueryHandler::should_raise_dont_fuzz_on_empty());
    assert!(DefaultListQueryHandler::should_return_all_on_empty());
    let mut h = DefaultListQueryHandler;
    assert!(matches!(h.handle_item(ListQuery::from_str("x").unwrap()), Some(ListQuery::Query(_))));
    let r = repo();
    let no = |_: &ScriptInfo| false;
    assert!(h.handle_query(&q("depl"), &r, PromptLevel::Always, &no).unwrap().is_none());
    assert_eq!(h.handle_query(&q("depl"), &r, PromptLevel::Never, &no).unwrap().unwrap().id, 4);
}

#[test]
fn wildcard_dot_is_literal() {
    let a = info(1, "axx.b", &[], 0);
    let b = info(2, "axxxb", &[], 0);
    match ListQuery::from_str("a*.b").unwrap() {
        ListQuery::Pattern(re, _, _) => assert_eq!(ids(&pattern_hits(&re, vec![&a, &b])), vec![1]),
        _ => panic!("a wildcard is a pattern"),
    }
}

#[test]
fn list_query_failures() {
    let r = repo();
    let yes = |_: &ScriptInfo| true;
    let no = |_: &ScriptInfo| false;
    let qs = vec![ListQuery::from_str("zz*").unwrap()];
    match do_list_query(&r, qs, PromptLevel::Never, &yes) {
        Err(Error::ScriptNotFound(n)) => assert_eq!(n, "zz*"),
        _ => panic!("a pattern matching nothing is not found"),
    }
    let qs = vec![ListQuery::from_str("depl").unwrap()];
    assert!(matches!(do_list_query(&r, qs, PromptLevel::Always, &no), Err(Error::DontFuzz)));
}
