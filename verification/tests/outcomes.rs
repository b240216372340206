use hyper_scripter::config::Config;
use hyper_scripter::error::{fmt_multi_path, Error, FormatCode, SysPath};
use hyper_scripter::event::{
    exec_content_to_store, exec_done_humble, exec_done_id, exec_done_plan, join_id_str, range_offset_limit,
};
use hyper_scripter::render::{render, InfoField, TemplateInfo};
use hyper_scripter::repo::{
    after_exec_done, change_steps, join_tags, last_time_update, ChangeStep, ScriptChanges,
    TraceOption,
};
use hyper_scripter::script::{ConcreteScriptName, ScriptInfo, ScriptName};
use hyper_scripter::script_type::{default_script_types, ScriptType};
use hyper_scripter::tag::{Tag, TagSet};

fn text_info(fields: &[(&str, &str)]) -> TemplateInfo {
    TemplateInfo(fields.iter().map(|(k, v)| (k.to_string(), InfoField::Text(v.to_string()))).collect())
}

fn named(s: &str) -> ScriptName {
    ScriptName::Named(ConcreteScriptName::new_unchecked(s.to_owned()))
}

#[test]
fn multi_path_message() {
    assert_eq!(fmt_multi_path("Path not found", &vec![]), "Path not found");
    let paths = vec!["/a".to_owned(), "/b".to_owned()];
    assert_eq!(fmt_multi_path("Path not found", &paths), "Path not found:\n/a/b");
}

#[test]
fn error_messages() {
    assert_eq!(Error::Empty.message().unwrap(), "No existing script!\n");
    assert_eq!(Error::DontFuzz.message().unwrap(), "");
    assert_eq!(
        Error::SysPathNotFound(SysPath::Home).message().unwrap(),
        "Can not find you're home path.\n"
    );
    assert_eq!(
        Error::ScriptNotFound("foo".to_owned()).message().unwrap(),
        "Script not found: foo\n"
    );
    assert_eq!(
        Error::ScriptExist("foo".to_owned()).message().unwrap(),
        "Script already exist: foo\n"
    );
    assert_eq!(
        Error::ScriptIsFiltered("foo".to_owned()).message().unwrap(),
        "Script filtered out: foo\n"
    );
    assert_eq!(Error::UnknownType("py".to_owned()).message().unwrap(), "Unknown type: py\n");
    assert_eq!(Error::NoAlias("x".to_owned()).message().unwrap(), "No such alias: x\n");
    assert_eq!(
        Error::ScriptError(-3).message().unwrap(),
        "Script exited unexpectedly with -3\n"
    );
    assert_eq!(
        Error::PermissionDenied(vec!["/p".to_owned()]).message().unwrap(),
        "Permission denied:\n/p\n"
    );
    assert_eq!(
        Error::Format(FormatCode::Tag, "a b".to_owned()).message().unwrap(),
        "Format error for tag 'a b'\n"
    );
    assert_eq!(
        Error::Format(FormatCode::NonEmptyArray, "".to_owned()).message().unwrap(),
        "Format error for non-empty array"
    );
    assert!(Error::Format(FormatCode::EnvPair, "x".to_owned()).message().is_none());
    assert!(Error::Completion.message().is_none());
}

#[test]
fn builder_fills_times_from_creation() {
    let tags = vec![Tag::new_unchecked("a".to_owned()), Tag::new_unchecked("a".to_owned())];
    let mut b = ScriptInfo::builder(7, 11, named("x"), ScriptType::new_unchecked("sh".to_owned()), tags);
    b.created_time(100).exec_time(150).exec_count(2);
    let info = b.build(999);
    assert_eq!(info.id, 7);
    assert_eq!(info.hash, 11);
    assert_eq!(info.created_time, 100);
    assert_eq!(info.write_time, 100);
    assert_eq!(info.read_time, 100);
    assert_eq!(info.exec_time, Some(150));
    assert_eq!(info.exec_count, 2);
    assert_eq!(info.tags.to_vec().len(), 1);

    let b = ScriptInfo::builder(1, 0, named("y"), ScriptType::new_unchecked("sh".to_owned()), vec![]);
    let info = b.build(999);
    assert_eq!((info.created_time, info.write_time, info.read_time), (999, 999, 999));
    assert_eq!(info.exec_time, None);
}

#[test]
fn copy_is_new_script() {
    let mut b = ScriptInfo::builder(
        3,
        5,
        named("x"),
        ScriptType::new_unchecked("rb".to_owned()),
        vec![Tag::new_unchecked("t".to_owned())],
    );
    b.created_time(10).exec_time(20).exec_count(4).neglect_time(30);
    let info = b.build(40);
    let copy = info.cp(named("z"), 50);
    assert_eq!(copy.id, 0);
    assert_eq!(copy.hash, 5);
    assert_eq!(copy.name.key(), "z");
    assert_eq!(copy.ty.as_ref(), "rb");
    assert_eq!((copy.created_time, copy.write_time, copy.read_time), (50, 50, 50));
    assert_eq!((copy.exec_time, copy.neglect_time, copy.exec_count), (None, None, 0));
    assert_eq!(join_tags(&copy.tags), "t");
}

#[test]
fn history_id_text_and_ranges() {
    assert_eq!(join_id_str(&[]), "");
    assert_eq!(join_id_str(&[1, 22, -3]), "[1][22][-3]");
    assert_eq!(range_offset_limit(1, None), (0, -1));
    assert_eq!(range_offset_limit(3, Some(10)), (2, 7));
}

#[test]
fn run_content_and_end_decisions() {
    assert_eq!(exec_content_to_store("echo", Some("echo")), None);
    assert_eq!(exec_content_to_store("echo", Some("ls")), Some("echo"));
    assert_eq!(exec_content_to_store("echo", None), Some("echo"));
    assert_eq!(exec_done_plan(None), None);
    assert_eq!(exec_done_plan(Some((true, false))), None);
    assert_eq!(exec_done_plan(Some((false, true))), Some(true));
    assert_eq!(exec_done_plan(Some((false, false))), Some(false));
    assert_eq!(exec_done_id(true, 9), 0);
    assert_eq!(exec_done_id(false, 9), 9);
    assert_eq!(exec_done_humble(false, None), None);
    assert_eq!(exec_done_humble(true, Some((true, false))), None);
    assert_eq!(exec_done_humble(true, Some((false, false))), Some(true));
    assert_eq!(exec_done_humble(false, Some((false, true))), Some(true));
    assert_eq!(exec_done_humble(false, Some((false, false))), Some(false));
}

#[test]
fn saving_steps() {
    let all = ScriptChanges { info: true, read: true, write: true, run: true, run_done: false };
    assert_eq!(
        change_steps(all, TraceOption::Normal),
        vec![
            ChangeStep::UpdateInfo,
            ChangeStep::UpdateLastTime,
            ChangeStep::RecordRead,
            ChangeStep::RecordWrite,
            ChangeStep::RecordExec
        ]
    );
    assert_eq!(change_steps(all, TraceOption::NoTrace), vec![ChangeStep::UpdateInfo]);
    let done = ScriptChanges { info: false, read: true, write: false, run: true, run_done: true };
    assert_eq!(change_steps(done, TraceOption::Humble), vec![ChangeStep::RecordExecDone]);
    let read = ScriptChanges { info: false, read: true, write: false, run: false, run_done: false };
    assert_eq!(
        change_steps(read, TraceOption::Humble),
        vec![ChangeStep::UpdateLastTime, ChangeStep::RecordRead]
    );
    assert_eq!(after_exec_done(4), vec![ChangeStep::UpdateLastTime]);
    assert_eq!(after_exec_done(0), vec![]);
    assert_eq!(last_time_update(TraceOption::NoTrace), None);
    assert_eq!(last_time_update(TraceOption::Humble), Some(true));
    assert_eq!(last_time_update(TraceOption::Normal), Some(false));
}

#[test]
fn stored_tags_text() {
    let mut set = TagSet::new();
    assert_eq!(join_tags(&set), "");
    set.insert(Tag::new_unchecked("a".to_owned()));
    set.insert(Tag::new_unchecked("b".to_owned()));
    let t = join_tags(&set);
    assert!(t == "a,b" || t == "b,a");
}

#[test]
fn rendered_arguments_and_env() {
    let info = text_info(&[("path", "/s/x.js"), ("home", "/h"), ("content", "1+1")]);
    let types = default_script_types();
    let js = &types.0[2].1;
    assert_eq!(js.args(&info).unwrap(), vec!["/s/x.js".to_owned()]);
    assert_eq!(
        js.gen_env(&info).unwrap(),
        vec![("NODE_PATH".to_owned(), "/h/node_modules".to_owned())]
    );
    let jsi = &types.0[3].1;
    assert_eq!(
        jsi.args(&info).unwrap(),
        vec!["-i".to_owned(), "-e".to_owned(), "1+1".to_owned()]
    );

    let mut bad = js.clone();
    bad.args = vec!["{{#if}}".to_owned()];
    assert!(matches!(bad.args(&info), Err(Error::Others(_, Some(_)))));
}

#[test]
fn config_env_is_rendered() {
    let info = text_info(&[("name", "x"), ("home", "/h"), ("content", "")]);
    let mut conf = Config::default();
    conf.env = vec![("A".to_owned(), "{{name}}-1".to_owned()), ("B".to_owned(), "{{#if}}".to_owned())];
    assert!(conf.gen_env(&info, true).is_err());
    assert_eq!(conf.gen_env(&info, false).unwrap(), vec![("A".to_owned(), "x-1".to_owned())]);
}

#[test]
fn templates_see_numbers_and_lists() {
    let info = TemplateInfo(vec![
        ("run_id".to_owned(), InfoField::Num(7)),
        ("tags".to_owned(), InfoField::List(vec!["a".to_owned(), "b".to_owned()])),
    ]);
    assert_eq!(render("{{run_id}}", &info).unwrap(), "7");
    assert_eq!(render("{{#each tags}}{{this}};{{/each}}", &info).unwrap(), "a;b;");
    assert!(matches!(render("{{#if}}", &info), Err(Error::Others(_, Some(_)))));
}
