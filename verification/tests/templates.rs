use hyper_scripter::config::Config;
use hyper_scripter::script_type::ScriptFullType;
use hyper_scripter::tag::{Tag, TagSet};
use hyper_scripter::template::{
    get_default_template, iter_default_templates, DEFAULT_WELCOME_MSG, JS_WELCOME_MSG, RB_CD_WELCOME_MSG,
    RB_TRAVERSE_WELCOME_MSG, RB_WELCOME_MSG, SHELL_WELCOME_MSG, TMUX_WELCOME_MSG,
};

fn ty(s: &str) -> ScriptFullType {
    ScriptFullType::from_str(s).unwrap()
}

#[test]
fn templates_by_type() {
    assert_eq!(get_default_template(&ty("sh")), SHELL_WELCOME_MSG);
    assert_eq!(get_default_template(&ty("tmux")), TMUX_WELCOME_MSG);
    assert_eq!(get_default_template(&ty("js")), JS_WELCOME_MSG);
    assert_eq!(get_default_template(&ty("js-i")), JS_WELCOME_MSG);
    assert_eq!(get_default_template(&ty("rb")), RB_WELCOME_MSG);
    assert_eq!(get_default_template(&ty("rb/traverse")), RB_TRAVERSE_WELCOME_MSG);
    assert_eq!(get_default_template(&ty("rb/cd")), RB_CD_WELCOME_MSG);
    assert_eq!(get_default_template(&ty("rb/other")), RB_WELCOME_MSG);
    assert_eq!(get_default_template(&ty("sh/cd")), SHELL_WELCOME_MSG);
    assert_eq!(get_default_template(&ty("txt")), DEFAULT_WELCOME_MSG);
    assert_eq!(get_default_template(&ty("py")), DEFAULT_WELCOME_MSG);
    assert!(SHELL_WELCOME_MSG.starts_with("# [HS_HELP]"));
    assert_eq!(DEFAULT_WELCOME_MSG, "{{#each content}}{{{this}}}\n{{/each}}");
}

#[test]
fn listed_templates_agree_with_lookup() {
    let all = iter_default_templates();
    assert_eq!(all.len(), 8);
    let names: Vec<String> = all.iter().map(|(t, _)| t.to_string()).collect();
    assert_eq!(names, vec!["sh", "tmux", "js", "js-i", "rb", "rb/traverse", "rb/cd", "txt"]);
    for (t, tmpl) in all.iter() {
        assert_eq!(get_default_template(t), *tmpl);
    }
}

#[test]
fn alias_names_stay_distinct() {
    let mut conf = Config::default();
    let before = conf.alias.len();
    conf.set_alias("la".to_owned(), vec!["ls".to_owned()]);
    conf.set_alias("la".to_owned(), vec!["ls".to_owned(), "-a".to_owned()]);
    assert_eq!(conf.alias.len(), before);
    conf.set_alias("new".to_owned(), vec!["edit".to_owned()]);
    conf.set_alias("new".to_owned(), vec!["cat".to_owned()]);
    assert_eq!(conf.alias.len(), before + 1);
    let mut names: Vec<&str> = conf.alias.iter().map(|(n, _)| n.as_str()).collect();
    names.sort();
    names.dedup();
    assert_eq!(names.len(), conf.alias.len());
}

#[test]
fn tag_set_holds_each_tag_once() {
    let mut set = TagSet::new();
    set.insert(Tag::new_unchecked("a".to_owned()));
    set.insert(Tag::new_unchecked("b".to_owned()));
    set.insert(Tag::new_unchecked("a".to_owned()));
    let copy = set.clone();
    let names: Vec<String> = copy.to_vec().iter().map(|t| t.0.clone()).collect();
    assert_eq!(names, vec!["a", "b"]);
    set.remove(&Tag::new_unchecked("a".to_owned()));
    assert!(!set.contains(&Tag::new_unchecked("a".to_owned())));
    assert!(copy.contains(&Tag::new_unchecked("a".to_owned())));
}
