use hyper_scripter::args::{completion_args, run_args, tags_set_args, AliasRoot, HistoryDisplay, RootArgs};
use hyper_scripter::config::Config;
use hyper_scripter::error::{Error, FormatCode, SysPath};
use hyper_scripter::extract_msg::Iter;
use hyper_scripter::path::{
    get_default_home, get_file, get_sql_file, get_sys_home, get_test_home, home_action, join_here_abs,
    redirect_target, HomeAction, HomeVar,
};
use hyper_scripter::query::FilterQuery;
use hyper_scripter::tag::TagSelector;
use hyper_scripter::text::trim;
use hyper_scripter::Either;

fn strings(v: &[&str]) -> Vec<String> {
    v.iter().map(|s| s.to_string()).collect()
}

fn root_args() -> RootArgs {
    RootArgs {
        hs_home: None,
        dump_args: false,
        no_trace: false,
        humble: false,
        archaeology: false,
        no_alias: false,
        select: vec![],
        toggle: vec![],
        all: false,
        recent: None,
        timeless: false,
        prompt_level: None,
    }
}

#[test]
fn history_display_parts() {
    assert!(HistoryDisplay::All.show_args() && HistoryDisplay::All.show_env());
    assert!(HistoryDisplay::Args.show_args() && !HistoryDisplay::Args.show_env());
    assert!(!HistoryDisplay::Env.show_args() && HistoryDisplay::Env.show_env());
}

#[test]
fn flags_widen_the_selection() {
    let mut a = root_args();
    a.sanitize_flags(true);
    assert!(a.timeless);
    assert_eq!(a.select.len(), 1);
    assert_eq!(a.select[0].to_string(), TagSelector::from_str("all").unwrap().to_string());

    let mut a = root_args();
    a.all = true;
    a.sanitize_flags(false);
    assert!(a.timeless);
    assert_eq!(a.select[0].to_string(), TagSelector::from_str("all,^remove").unwrap().to_string());

    let mut a = root_args();
    a.sanitize_flags(false);
    assert!(!a.timeless);
    assert!(a.select.is_empty());
}

#[test]
fn aliases_expand_in_place() {
    let conf = Config::default();
    let display = |s: &String| format!("'{}'", s);
    let root = AliasRoot { root_args: root_args(), subcmd: strings(&["la", "x"]) };
    let args = strings(&["hs", "-s", "t", "la", "x"]);
    match root.expand_alias(&args, &conf, &display) {
        Some(Either::One(v)) => assert_eq!(v, strings(&["hs", "-s", "t", "ls", "-a", "x"])),
        _ => panic!("la is an alias"),
    }
    let root = AliasRoot { root_args: root_args(), subcmd: strings(&["conf", "a b"]) };
    let args = strings(&["hs", "conf", "a b"]);
    match root.expand_alias(&args, &conf, &display) {
        Some(Either::Two(v)) => assert_eq!(v, strings(&["$HS_EDITOR $HS_HOME/.config.toml", "'a b'"])),
        _ => panic!("conf is a shell alias"),
    }
    let root = AliasRoot { root_args: root_args(), subcmd: strings(&["run", "x"]) };
    assert!(root.expand_alias(&strings(&["hs", "run", "x"]), &conf, &display).is_none());
    let root = AliasRoot { root_args: root_args(), subcmd: vec![] };
    assert!(root.expand_alias(&strings(&["hs"]), &conf, &display).is_none());
}

#[test]
fn words_handed_to_the_parser() {
    assert_eq!(completion_args(&strings(&["hs", "completion", "ls"])), Some(strings(&["completion", "ls"])));
    assert_eq!(completion_args(&strings(&["hs", "ls"])), None);
    assert_eq!(completion_args(&strings(&["hs"])), None);
    assert_eq!(tags_set_args(&strings(&["+a"])), strings(&["tags", "set", "+a"]));
    assert_eq!(run_args(&strings(&["x", "-y"])), strings(&["hs", "run", "x", "-y"]));
}

#[test]
fn homes() {
    assert_eq!(get_default_home(Some("/cfg".to_string())).unwrap(), "/cfg/hyper_scripter");
    assert!(matches!(get_default_home(None), Err(Error::SysPathNotFound(SysPath::Config))));
    assert_eq!(get_sys_home(HomeVar::Value("/h".to_string()), None).unwrap(), "/h");
    assert_eq!(get_sys_home(HomeVar::NotPresent, Some("/c".to_string())).unwrap(), "/c/hyper_scripter");
    assert!(matches!(get_sys_home(HomeVar::NotUnicode, None), Err(Error::Others(..))));
    assert_eq!(join_here_abs("rel", "/here"), "/here/rel");
    assert_eq!(join_here_abs("/abs", "/here"), "/abs");
    assert_eq!(get_file("/h"), "/h/.script_info.db");
    assert_eq!(get_sql_file("/h/"), "/h/.script_info.sql");
    assert_eq!(get_test_home("/proj"), "/proj/.test_hyper_scripter");
}

#[test]
fn home_decisions() {
    assert!(matches!(home_action("/h", false, true, false), Ok(HomeAction::CreateThenUse)));
    match home_action("/h", false, false, false) {
        Err(Error::PathNotFound(v)) => assert_eq!(v, vec!["/h".to_string()]),
        _ => panic!("a missing home is an error"),
    }
    match home_action("/h", true, false, true) {
        Ok(HomeAction::FollowRedirect(f)) => assert_eq!(f, "/h/.hs_redirect"),
        _ => panic!("a redirect is followed"),
    }
    assert!(matches!(home_action("/h", true, true, false), Ok(HomeAction::UseIt)));
    assert_eq!(redirect_target("/h", "  other\n"), "/h/other");
    assert_eq!(redirect_target("/h", "/abs \t"), "/abs");
    assert_eq!(trim(" \t a b \n"), "a b");
    assert_eq!(trim("   "), "");
}

#[test]
fn filter_queries() {
    let f = FilterQuery::from_str("pin=+a,^b").unwrap();
    assert_eq!(f.name.as_deref(), Some("pin"));
    assert_eq!(f.content.to_string(), "+a,^b");
    let f = FilterQuery::from_str("a").unwrap();
    assert!(f.name.is_none());
    match FilterQuery::from_str("a=b=c") {
        Err(Error::Format(FormatCode::FilterQuery, s)) => assert_eq!(s, "a=b=c"),
        _ => panic!("two `=` are refused"),
    }
}

#[test]
fn messages_read_one_at_a_time() {
    let lines = strings(&["", "# [HS_HELP]: first", "  ", "# [HS_ENV]: KEY", "plain", "# [HS_HELP]: late"]);
    let mut it = Iter::new(lines);
    let (k, m) = it.next().unwrap();
    assert_eq!((k, m.to_string().as_str()), (0, "first"));
    let (k, m) = it.next().unwrap();
    assert_eq!((k, m.to_string().as_str()), (1, "KEY"));
    assert!(it.next().is_none());
    let (k, m) = it.next().unwrap();
    assert_eq!((k, m.to_string().as_str()), (0, "late"));
    assert!(it.next().is_none());
}
