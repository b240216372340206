use hyper_scripter::error::Error;
use hyper_scripter::path::{
    anonymous_id_of, check_open, get_process_lock, join_home, new_anonymous_name, normalize_path,
    open_script, script_file,
};
use hyper_scripter::script::{IntoScriptName, ScriptName};
use hyper_scripter::script_type::{default_script_types, ScriptType};

const HOME: &str = "/home/user/.test_hyper_scripter";

fn ty(s: &str) -> ScriptType {
    ScriptType::new_unchecked(s.to_string())
}

fn home_join(p: &str) -> String {
    format!("{}/{}", HOME, p)
}

fn existing() -> Vec<String> {
    vec![
        home_join(".anonymous/1.sh"),
        home_join(".anonymous/2.rb"),
        home_join(".anonymous/3.js"),
        home_join(".anonymous/5.sh"),
        home_join("second.no-such-type"),
    ]
}

fn open(name: &ScriptName, t: &str, check_exist: Option<bool>) -> Result<String, Error> {
    open_script(name, &ty(t), check_exist, HOME, &default_script_types(), &existing())
}

#[test]
fn test_open() {
    let second_name = "second".to_owned().into_script_name().unwrap();
    let not_exist = "not-exist".to_owned().into_script_name().unwrap();

    let p = open(&second_name, "rb", Some(false)).unwrap();
    assert_eq!(p, home_join("second.rb"));

    let p = open(&".1".to_owned().into_script_name().unwrap(), "sh", None).unwrap();
    assert_eq!(p, home_join(".anonymous/1.sh"));

    match open(&not_exist, "sh", Some(true)).unwrap_err() {
        Error::PathNotFound(name) => assert_eq!(name[0], home_join("not-exist.sh")),
        _ => unreachable!(),
    }

    let err = open(&second_name, "no-such-type", None).unwrap_err();
    assert!(matches!(err, Error::UnknownType(_)));
    let err = open(&second_name, "no-such-type", Some(false)).unwrap_err();
    assert!(matches!(err, Error::UnknownType(_)));
    let p = open(&second_name, "no-such-type", Some(true)).unwrap();
    assert_eq!(p, home_join("second.no-such-type"));
    let err = open(&not_exist, "no-such-type", Some(true)).unwrap_err();
    assert!(matches!(err, Error::UnknownType(_)));
}

#[test]
fn test_open_anonymous() {
    let mut iter = new_anonymous_name(3, vec![1, 2, 3, 5, 7]);
    let new_scripts: Vec<ScriptName> = vec![
        iter.next().unwrap(),
        iter.next().unwrap(),
        iter.next().unwrap(),
    ];
    assert!(iter.next().is_none());
    assert!(matches!(new_scripts[0], ScriptName::Anonymous(4)));
    assert!(matches!(new_scripts[1], ScriptName::Anonymous(6)));
    assert!(matches!(new_scripts[2], ScriptName::Anonymous(8)));

    let p = open(&5.into_script_name().unwrap(), "js", None).unwrap();
    assert_eq!(p, home_join(".anonymous/5.js"));
}

#[test]
fn test_anonymous_ids() {
    let names = ["1.sh", "2.rb", "3.js", "5.sh", "notes.txt"];
    let mut ids: Vec<u32> = names.iter().filter_map(|n| anonymous_id_of(n)).collect();
    ids.sort();
    assert_eq!(ids, vec![1, 2, 3, 5]);
}

#[test]
fn open_existing_file_that_must_not_exist() {
    let second_name = "second".to_owned().into_script_name().unwrap();
    let p = open(&second_name, "rb", Some(true));
    assert!(matches!(p, Err(Error::PathNotFound(_))));
    let anon = ".2".to_owned().into_script_name().unwrap();
    match open(&anon, "rb", Some(false)).unwrap_err() {
        Error::PathExist(p) => assert_eq!(p, home_join(".anonymous/2.rb")),
        _ => unreachable!(),
    }
    assert_eq!(open(&anon, "rb", Some(true)).unwrap(), home_join(".anonymous/2.rb"));
}

#[test]
fn script_file_keeps_fallback_error() {
    let name = "a/b".to_owned().into_script_name().unwrap();
    let (p, e) = script_file(&name, &ty("nope"), Some(true), &default_script_types()).unwrap();
    assert_eq!(p, "a/b.nope");
    assert!(matches!(e, Some(Error::UnknownType(_))));
    let (p, e) = script_file(&name, &ty("txt"), None, &default_script_types()).unwrap();
    assert_eq!(p, "a/b");
    assert!(e.is_none());
}

#[test]
fn check_open_decides_on_existence() {
    assert_eq!(check_open("x".to_string(), true, Some(true), None).unwrap(), "x");
    assert!(matches!(check_open("x".to_string(), true, Some(false), None), Err(Error::PathExist(_))));
    assert!(matches!(check_open("x".to_string(), false, Some(true), None), Err(Error::PathNotFound(_))));
    assert_eq!(check_open("x".to_string(), true, None, None).unwrap(), "x");
}

#[test]
fn join_home_adds_one_separator() {
    assert_eq!(join_home("/a", "b"), "/a/b");
    assert_eq!(join_home("/a/", "b"), "/a/b");
    assert_eq!(join_home("/a", "/b"), "/b");
    assert_eq!(join_home("", "b"), "b");
}

#[test]
fn normalize_path_drops_dots() {
    assert_eq!(normalize_path("/a/./b/../c//d/", "/x"), "/a/c/d");
    assert_eq!(normalize_path("b/../../c", "/x/y"), "/x/c");
    assert_eq!(normalize_path("/..", "/x"), "/");
    assert_eq!(normalize_path("", "/x/y"), "/x/y");
}

#[test]
fn process_lock_path() {
    assert_eq!(get_process_lock("/h", 42), "/h/.hs_process_lock/42");
    assert_eq!(get_process_lock("/h", -7), "/h/.hs_process_lock/-7");
}

#[test]
fn anonymous_id_needs_a_number() {
    assert_eq!(anonymous_id_of("12"), Some(12));
    assert_eq!(anonymous_id_of("12.sh.bak"), Some(12));
    assert_eq!(anonymous_id_of("x.sh"), None);
    assert_eq!(anonymous_id_of("99999999999.sh"), None);
}

#[test]
fn normalize_path_is_idempotent() {
    let once = normalize_path("/a/b/../c/./d", "/x");
    assert_eq!(once, "/a/c/d");
    assert_eq!(normalize_path(&once, "/x"), once);
    let rel = normalize_path("../../q/./r", "/x/y");
    assert_eq!(rel, "/q/r");
    assert_eq!(normalize_path(&rel, "/elsewhere"), rel);
    assert_eq!(normalize_path("/..", "/x"), "/");
    assert_eq!(normalize_path("/", "/x"), "/");
}
