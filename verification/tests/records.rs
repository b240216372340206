use hyper_scripter::config::Recent;
use hyper_scripter::event::{EventData, EventType};
use hyper_scripter::historian;
use hyper_scripter::process_lock::{ProcessInfoRead, ProcessInfoWrite};
use hyper_scripter::repo::{RecentFilter, ScriptRepo, Visibility};
use hyper_scripter::script::{ConcreteScriptName, ScriptInfo, ScriptName};
use hyper_scripter::script_type::ScriptType;
use hyper_scripter::tag::{Tag, TagSelector, TagSelectorGroup, TagSet};

fn info(name: &str, tags: &[&str], write_time: i64, neglect: Option<i64>) -> ScriptInfo {
    let mut set = TagSet::new();
    for t in tags {
        set.insert(Tag::new_unchecked(t.to_string()));
    }
    ScriptInfo {
        id: 0,
        hash: 0,
        name: ScriptName::Named(ConcreteScriptName::new_unchecked(name.to_string())),
        ty: ScriptType::new_unchecked("sh".to_string()),
        tags: set,
        created_time: 0,
        read_time: write_time,
        write_time,
        exec_time: None,
        exec_done_time: None,
        neglect_time: neglect,
        humble_time: None,
        exec_count: 0,
    }
}

fn names(v: &[&ScriptInfo]) -> Vec<String> {
    v.iter().map(|s| s.name.key()).collect()
}

fn repo(recent: RecentFilter) -> ScriptRepo {
    let scripts = vec![
        info("a", &["x"], 95 * 86400, None),
        info("b", &["hide"], 95 * 86400, None),
        info("c", &["x"], 10, None),
        info("d", &["x"], 95 * 86400, Some(99 * 86400)),
    ];
    let mut sel = TagSelectorGroup::new();
    sel.push(TagSelector::from_str("all").unwrap());
    sel.push(TagSelector::from_str("+^hide!").unwrap());
    ScriptRepo::new(recent, scripts, &sel, 100 * 86400)
}

#[test]
fn repo_hides_by_tags_and_age() {
    let r = repo(RecentFilter { recent: Recent::Days(90), archaeology: false });
    assert_eq!(names(&r.iter_by_vis(Visibility::Normal)), vec!["a"]);
    assert_eq!(names(&r.iter_by_vis(Visibility::Inverse)), vec!["b", "c", "d"]);
    assert_eq!(r.time_hidden_count, 2);

    let r = repo(RecentFilter { recent: Recent::Days(90), archaeology: true });
    assert_eq!(names(&r.iter_by_vis(Visibility::Normal)), vec!["c", "d"]);
    assert_eq!(names(&r.iter_by_vis(Visibility::All)), vec!["c", "d", "a", "b"]);

    let r = repo(RecentFilter { recent: Recent::NoNeglect, archaeology: false });
    assert_eq!(names(&r.iter_by_vis(Visibility::Normal)), vec!["a", "c"]);
    let r = repo(RecentFilter { recent: Recent::Timeless, archaeology: false });
    assert_eq!(names(&r.iter_by_vis(Visibility::Normal)), vec!["a", "c", "d"]);
}

#[test]
fn repo_lookups() {
    let r = repo(RecentFilter { recent: Recent::Timeless, archaeology: false });
    assert_eq!(r.latest_mut(1, Visibility::Normal).unwrap().name.key(), "d");
    assert_eq!(r.latest_mut(3, Visibility::Normal).unwrap().name.key(), "c");
    assert!(r.latest_mut(4, Visibility::Normal).is_none());
    let b = ScriptName::Named(ConcreteScriptName::new_unchecked("b".to_string()));
    assert!(r.get_mut(&b, Visibility::Normal).is_none());
    assert_eq!(r.get_mut(&b, Visibility::All).unwrap().name.key(), "b");
    assert_eq!(r.get_mut(&b, Visibility::Inverse).unwrap().name.key(), "b");
}

#[test]
fn visibility_and_filter() {
    assert_eq!(Visibility::Normal.invert(), Visibility::Inverse);
    assert_eq!(Visibility::Inverse.invert(), Visibility::Normal);
    assert_eq!(Visibility::All.invert(), Visibility::All);
    assert!(Visibility::All.is_all() && Visibility::Normal.is_normal() && Visibility::Inverse.is_inverse());
    assert_eq!(RecentFilter { recent: Recent::Days(2), archaeology: true }.to_string(), "2 days (archaeology)");
    assert_eq!(RecentFilter::default().to_string(), "no-neglect");
}

#[test]
fn process_lock_round_trip() {
    let args = vec!["x".to_owned(), "y z".to_owned()];
    let w = ProcessInfoWrite { pid: 77, script_id: -3, script_name: "this-name", args: &args };
    let text = w.content();
    assert_eq!(text, "77 -3\nthis-name x y z");
    let r = ProcessInfoRead::new(text).unwrap();
    assert_eq!((r.pid, r.script_id), (77, -3));
    assert_eq!(r.file_content(), "this-name x y z");
    assert!(r.file_content().starts_with("this-name"));
}

#[test]
fn process_lock_reads_back_any_body() {
    let body = "name with spaces\nsecond line\n";
    let raw = format!("{} {}\n{}", u32::MAX, i64::MIN, body);
    let r = ProcessInfoRead::new(raw).unwrap();
    assert_eq!((r.pid, r.script_id), (u32::MAX, i64::MIN));
    assert_eq!(r.file_content(), body);
}

#[test]
fn process_lock_errors() {
    assert!(ProcessInfoRead::new("12 3".to_owned()).is_err());
    assert!(ProcessInfoRead::new("123\nx".to_owned()).is_err());
    assert!(ProcessInfoRead::new("a 3\nx".to_owned()).is_err());
    assert!(ProcessInfoRead::new("1 b\nx".to_owned()).is_err());
}

#[test]
fn event_kinds() {
    let e = EventData::ExecDone { code: 0, main_event_id: 1 };
    assert_eq!(e.get_type(), EventType::ExecDone);
    assert_eq!(EventType::ExecDone.get_str(), "ExecDone");
    assert_eq!(EventData::Exec { content: "c", args: "[]", dir: None }.get_type().get_str(), "Exec");
    assert_eq!(historian::EventData::Exec("x".to_owned()).get_type(), historian::EventType::Exec);
    assert_eq!(historian::EventType::Read.to_string(), "Read");
}
