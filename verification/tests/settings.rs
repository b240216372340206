use hyper_scripter::color::{Color, Stylize};
use hyper_scripter::config::{config_file, Alias, Config, PromptLevel, Recent, RecentRepr};
use hyper_scripter::env_pair::EnvPair;
use hyper_scripter::error::Error;
use hyper_scripter::script_type::ScriptType;
use hyper_scripter::state::State;
use hyper_scripter::tag::TagSelector;
use std::collections::HashMap;

fn get_args(alias: &Alias) -> (bool, Vec<String>) {
    alias.args()
}

#[test]
fn alias_args() {
    let alias = Alias::from(vec!["!".to_owned()]);
    assert_eq!((false, vec!["!".to_owned()]), get_args(&alias));

    let alias = Alias::from(vec!["!".to_owned(), "args".to_owned()]);
    assert_eq!((false, vec!["!".to_owned(), "args".to_owned()]), get_args(&alias));

    let alias = Alias::from(vec!["! args".to_owned()]);
    assert_eq!((false, vec!["! args".to_owned()]), get_args(&alias));

    let alias = Alias::from(vec!["!!".to_owned()]);
    assert_eq!((true, vec!["!".to_owned()]), get_args(&alias));

    let alias = Alias::from(vec!["!ls".to_owned()]);
    assert_eq!((true, vec!["ls".to_owned()]), get_args(&alias));

    let alias = Alias::from(vec!["!ls".to_owned(), "*".to_owned()]);
    assert_eq!((true, vec!["ls".to_owned(), "*".to_owned()]), get_args(&alias));
}

#[test]
fn prompt_level_text() {
    for (s, l) in [
        ("always", PromptLevel::Always),
        ("never", PromptLevel::Never),
        ("smart", PromptLevel::Smart),
        ("on-multi-fuzz", PromptLevel::OnMultiFuzz),
    ] {
        assert_eq!(PromptLevel::from_str(s).unwrap(), l);
    }
    assert_eq!(PromptLevel::Smart.to_string(), "smart");
    assert_eq!(PromptLevel::OnMultiFuzz.to_string(), "on_multi_fuzz");
    match PromptLevel::from_str("sometimes") {
        Err(e) => assert!(matches!(e.0, Error::Format(_, ref s) if s == "sometimes")),
        Ok(_) => unreachable!(),
    }
}

#[test]
fn recent_text_and_store() {
    assert_eq!(Recent::from_str("timeless").unwrap(), Recent::Timeless);
    assert_eq!(Recent::from_str("no-neglect").unwrap(), Recent::NoNeglect);
    assert_eq!(Recent::from_str("+7").unwrap(), Recent::Days(7));
    assert!(Recent::from_str("7 days").is_err());
    assert_eq!(Recent::Days(3).to_string(), "3 days");
    assert_eq!(Recent::default(), Recent::NoNeglect);
    for r in [Recent::Timeless, Recent::NoNeglect, Recent::Days(12)] {
        assert_eq!(Recent::deserialize(r.serialize()).unwrap(), r);
    }
    assert_eq!(Recent::Days(5).serialize(), RecentRepr::Int(5));
}

#[test]
fn default_config() {
    let c = Config::default();
    assert!(c.is_from_dafault());
    assert_eq!(c.editor, vec!["vim".to_owned(), "-p".to_owned()]);
    assert_eq!(c.prompt_level, PromptLevel::Smart);
    assert_eq!(c.recent, Recent::NoNeglect);
    let names: Vec<&str> = c.tag_selectors.iter().map(|s| s.name.as_str()).collect();
    assert_eq!(names, vec!["pin", "no-hidden", "no-removed"]);
    assert_eq!(c.tag_selectors[0].content.to_string(), TagSelector::from_str("+pin,util").unwrap().to_string());
    assert_eq!(c.tag_selectors[1].content.to_string(), TagSelector::from_str("+^hide!").unwrap().to_string());
    assert_eq!(c.tag_selectors[2].content.to_string(), TagSelector::from_str("+^remove!").unwrap().to_string());
    assert_eq!(c.main_tag_selector.to_string(), TagSelector::from_str("+all").unwrap().to_string());
    assert_eq!(c.caution_tags.to_string(), "caution");
    let gc = c.alias.iter().find(|(k, _)| k == "gc").unwrap();
    assert_eq!(gc.1.after, vec!["rm", "--timeless", "--purge", "-s", "remove", "*"]);
    assert_eq!(c.alias.len(), 12);
    assert_eq!(c.env.len(), 10);
    assert!(matches!(c.get_color(&ScriptType::new_unchecked("rb".to_owned())), Ok(Color::BrightRed)));
    assert!(matches!(c.get_color(&ScriptType::new_unchecked("x".to_owned())), Err(Error::UnknownType(_))));
}

#[test]
fn config_store_decision() {
    let mut c = Config::default();
    assert!(c.should_store(None));
    assert!(!c.should_store(Some(5)));
    c.last_modified = Some(10);
    assert!(c.should_store(Some(10)));
    assert!(!c.should_store(Some(11)));
    assert_eq!(c.runtime_prompt_level(None), PromptLevel::Smart);
    assert_eq!(c.runtime_prompt_level(Some(PromptLevel::Never)), PromptLevel::Never);
}

#[test]
fn tag_selector_group_with_toggles() {
    let c = Config::default();
    let mut toggle = vec!["pin".to_owned(), "other".to_owned()];
    let g = c.get_tag_selector_group(&mut toggle);
    assert_eq!(toggle, vec!["other".to_owned()]);
    let texts: Vec<String> = g.0.iter().map(|s| s.to_string()).collect();
    assert_eq!(texts, vec!["+^hide!", "+^remove!", "+all"]);
}

#[test]
fn env_from_rendered_templates() {
    let c = Config::default();
    let mut rendered: Vec<Result<String, Error>> = (0..c.env.len()).map(|i| Ok(format!("v{}", i))).collect();
    rendered[1] = Err(Error::Empty);
    let env = c.gen_env_from(rendered, false).unwrap();
    assert_eq!(env.len(), 9);
    assert_eq!(env[0], ("NAME".to_owned(), "v0".to_owned()));
    assert_eq!(env[1], ("HS_CMD".to_owned(), "v2".to_owned()));
    let mut rendered: Vec<Result<String, Error>> = (0..c.env.len()).map(|i| Ok(format!("v{}", i))).collect();
    rendered[3] = Err(Error::Empty);
    assert!(matches!(c.gen_env_from(rendered, true), Err(Error::Empty)));
}

#[test]
fn config_file_path() {
    assert_eq!(config_file("/h", None), "/h/.config.toml");
    assert_eq!(config_file("/h", Some("/x/c.toml".to_owned())), "/x/c.toml");
}

#[test]
fn colors_and_styles() {
    assert!(matches!(Color::from("bright cyan"), Color::BrightCyan));
    assert!(matches!(Color::from("no such color"), Color::White));
    let mut s = "abc".to_owned().stylize();
    assert_eq!(s.to_string(), "abc");
    s.color(Color::Red).bold();
    assert_eq!(s.to_string(), "\x1B[1;31mabc\x1B[0m");
    s.underline().italic().dimmed().done();
    assert_eq!(s.to_string(), "\x1B[1;2;3;4;31mabc\x1B[0m");
}

type ENV = HashMap<&'static str, &'static str>;

fn map_env_pairs(v: &[EnvPair]) -> Vec<(&str, &str)> {
    v.iter().map(|e| (e.key.as_str(), e.val.as_str())).collect()
}

fn get(key: &str, mock_env: &ENV) -> Option<String> {
    mock_env.get(key).map(|s| s.to_string())
}

#[test]
fn env_pair_process_line() {
    let mut mock_env: ENV = Default::default();
    let mut env_vec = vec![];
    EnvPair::process_line("VAR1 blah blah", &mut env_vec, |k| get(k, &mock_env));
    assert!(env_vec.is_empty());

    mock_env.insert("VAR1", "first value");
    EnvPair::process_line("VAR1 blah blah", &mut env_vec, |k| get(k, &mock_env));
    assert_eq!(map_env_pairs(&env_vec), &[("VAR1", "first value")]);

    mock_env.insert("VAR1", "second value");
    EnvPair::process_line("VAR1 blah blah", &mut env_vec, |k| get(k, &mock_env));
    assert_eq!(map_env_pairs(&env_vec), &[("VAR1", "first value")], "Existing value should be stronger");

    mock_env.insert("VAR2", "second value");
    EnvPair::process_line("  VAR2 blah blah", &mut env_vec, |k| get(k, &mock_env));
    assert_eq!(map_env_pairs(&env_vec), &[("VAR1", "first value"), ("VAR2", "second value")]);
}

#[test]
fn env_pair_text_and_sort() {
    let p = EnvPair::from_str("A=b=c").unwrap();
    assert_eq!((p.key.as_str(), p.val.as_str()), ("A", "b=c"));
    assert_eq!(p.to_string(), "A=b=c");
    assert!(EnvPair::from_str("novalue").is_err());
    let mut v = vec![
        EnvPair::from_str("B=1").unwrap(),
        EnvPair::from_str("A=2").unwrap(),
        EnvPair::from_str("B=0").unwrap(),
        EnvPair::from_str("AB=3").unwrap(),
    ];
    EnvPair::sort(&mut v);
    assert_eq!(map_env_pairs(&v), &[("A", "2"), ("AB", "3"), ("B", "1"), ("B", "0")]);
}

#[test]
fn state_set_then_get() {
    let mut s: State<u32> = State::new();
    s.set(7);
    assert_eq!(*s.get(), 7);
}
