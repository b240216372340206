use hyper_scripter::completion::{
    alias_completions, completion_query, edit_tag_completions, filter_tag_completions, fuzz_completions,
    latest_completions, order_fuzz_matches, prefix_plus, recent_completions, select_completions,
    selector_completions, split_bang, split_exact, type_completions, CompletionItem, FuzzOutcome,
    ScriptCompletion,
};
use hyper_scripter::config::Config;
use hyper_scripter::repo::{known_tags, RecentFilter, ScriptRepo};
use hyper_scripter::script::{string_into_script_name, ScriptInfo};
use hyper_scripter::script_type::ScriptType;
use hyper_scripter::tag::{Tag, TagSelector, TagSelectorGroup, TagSet};

fn script(id: i64, name: &str, tags: &[&str], time: i64) -> ScriptInfo {
    let mut set = TagSet::new();
    for t in tags {
        set.insert(Tag::new_unchecked(t.to_string()));
    }
    ScriptInfo {
        id,
        hash: 0,
        name: string_into_script_name(name.to_owned(), true).unwrap(),
        ty: ScriptType::new_unchecked("sh".to_owned()),
        tags: set,
        created_time: 0,
        read_time: time,
        write_time: time,
        exec_time: None,
        exec_done_time: None,
        neglect_time: None,
        humble_time: None,
        exec_count: 0,
    }
}

fn values(v: &[CompletionItem]) -> Vec<String> {
    v.iter().map(|c| c.value.clone()).collect()
}

fn names(v: &[&ScriptInfo]) -> Vec<String> {
    v.iter().map(|s| s.name.key()).collect()
}

#[test]
fn typed_marks() {
    assert_eq!(split_bang("ab!"), ("ab".to_owned(), true));
    assert_eq!(split_bang("ab"), ("ab".to_owned(), false));
    assert_eq!(split_bang(""), ("".to_owned(), false));
    assert_eq!(split_exact("=ab"), ("ab".to_owned(), true));
    assert_eq!(split_exact("ab="), ("ab=".to_owned(), false));
    assert!(matches!(completion_query(""), ScriptCompletion::Latest { typed_empty: true, bang: false }));
    assert!(matches!(completion_query("!"), ScriptCompletion::Latest { typed_empty: true, bang: true }));
    assert!(matches!(completion_query("^2!"), ScriptCompletion::Latest { typed_empty: false, bang: true }));
    match completion_query("=ab!") {
        ScriptCompletion::Fuzzy { name, exact, bang } => assert_eq!((name.as_str(), exact, bang), ("ab", true, true)),
        _ => panic!("expected a fuzzy query"),
    }
    match completion_query("ab") {
        ScriptCompletion::Fuzzy { name, exact, bang } => assert_eq!((name.as_str(), exact, bang), ("ab", false, false)),
        _ => panic!("expected a fuzzy query"),
    }
}

#[test]
fn latest_scripts_offered() {
    let v: Vec<ScriptInfo> = (0..12).map(|i| script(i, &format!("s{}", i), &[], i)).collect();
    let refs: Vec<&ScriptInfo> = v.iter().collect();
    let comps = latest_completions(refs.clone(), true, false);
    assert_eq!(comps.len(), 10);
    assert_eq!((comps[0].value.as_str(), comps[0].desc.as_str()), ("s11", "^1"));
    assert_eq!((comps[9].value.as_str(), comps[9].desc.as_str()), ("s2", "^10"));
    assert_eq!(comps[0].group.as_deref(), Some("scripts"));
    let comps = latest_completions(refs, false, true);
    assert_eq!((comps[1].value.as_str(), comps[1].desc.as_str()), ("^2!", "s10!"));
}

#[test]
fn fuzzy_matches_order() {
    let ans = script(1, "ab", &[], 10);
    let ext = script(2, "ab/c", &[], 5);
    let other = script(3, "xab", &[], 50);
    let s1 = script(4, "q", &[], 1);
    let s2 = script(5, "r", &[], 2);
    let order = order_fuzz_matches(FuzzOutcome::Multi {
        ans: &ans,
        others: vec![&ext, &other],
        still_others: vec![&s1, &s2],
    });
    assert_eq!(names(&order), vec!["xab", "ab", "ab/c", "r", "q"]);
    assert_eq!(names(&order_fuzz_matches(FuzzOutcome::Single(&ans))), vec!["ab"]);
    assert!(order_fuzz_matches(FuzzOutcome::NoMatch).is_empty());

    let comps = fuzz_completions(vec![&ans, &ext], "ab", true, true);
    assert_eq!(values(&comps), vec!["=ab!", "=ab/c!"]);
    assert_eq!(comps[0].desc, "ab");
    assert!(comps[0].always_match);
}

#[test]
fn plus_doubles_when_empty_or_plus() {
    let base = type_completions(&vec!["sh".to_owned(), "js".to_owned()]);
    assert_eq!(values(&prefix_plus("", base.clone())), vec!["sh", "js", "+sh", "+js"]);
    assert_eq!(values(&prefix_plus("+s", base.clone())), vec!["sh", "js", "+sh", "+js"]);
    assert_eq!(values(&prefix_plus("s", base)), vec!["sh", "js"]);
}

#[test]
fn tag_and_type_completions() {
    let tags = vec![Tag::new_unchecked("x".to_owned())];
    let comps = select_completions("", &vec!["sh".to_owned()], &tags);
    assert_eq!(values(&comps), vec!["@sh!", "x!", "+@sh!", "+x!"]);
    assert_eq!(comps[0].group.as_deref(), Some("types"));
    assert_eq!(comps[1].group.as_deref(), Some("tags"));
    assert_eq!(values(&filter_tag_completions(&tags)), vec!["+x"]);
    assert_eq!(values(&edit_tag_completions("x", &tags)), vec!["x"]);
    assert_eq!(values(&recent_completions()), vec!["no-neglect", "timeless"]);
}

#[test]
fn config_completions() {
    let conf = Config::default();
    let aliases = alias_completions(&conf);
    assert_eq!((aliases[0].value.as_str(), aliases[0].desc.as_str()), ("la", "ls -a"));
    assert_eq!(aliases[0].group.as_deref(), Some("alias"));
    assert_eq!(values(&selector_completions(&conf)), vec!["pin", "no-hidden", "no-removed"]);
}

#[test]
fn known_tags_latest_first() {
    let v = vec![
        script(1, "a", &["x", "y"], 10),
        script(2, "b", &["y", "z"], 30),
        script(3, "c", &["x"], 20),
    ];
    let mut sel = TagSelectorGroup::new();
    sel.push(TagSelector::from_str("x").unwrap());
    let repo = ScriptRepo::new(RecentFilter::default(), v, &sel, 100);
    let tags: Vec<String> = known_tags(&repo).iter().map(|t| t.as_ref().to_owned()).collect();
    assert_eq!(tags, vec!["y", "z", "x"]);
}
