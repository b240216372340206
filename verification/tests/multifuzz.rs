use hyper_scripter::multifuzz::{resolve_multi_fuzz, the_multifuzz_algo};
use hyper_scripter::script::{ConcreteScriptName, ScriptInfo, ScriptName};
use hyper_scripter::script_type::ScriptType;
use hyper_scripter::tag::TagSet;

fn info(name: ScriptName, read_time: i64) -> ScriptInfo {
    ScriptInfo {
        id: 0,
        hash: 0,
        name,
        ty: ScriptType::new_unchecked("sh".to_string()),
        tags: TagSet::new(),
        created_time: 0,
        read_time,
        write_time: 0,
        exec_time: None,
        exec_done_time: None,
        neglect_time: None,
        humble_time: None,
        exec_count: 0,
    }
}

/// A candidate ranked by `order`: the lower the order, the stronger.
fn obj(s: &str, order: i64) -> ScriptInfo {
    info(ScriptName::Named(ConcreteScriptName::new_unchecked(s.to_string())), 100 - order)
}

fn run(ans: (&str, i64), others: &[(&str, i64)]) -> String {
    let others: Vec<ScriptInfo> = others.iter().map(|(s, o)| obj(s, *o)).collect();
    the_multifuzz_algo(obj(ans.0, ans.1), others).name.key()
}

#[test]
fn test_the_multifuzz_algo() {
    let (ans, other_p, other) = ("dir", "dir/a", "dother");

    // other_p, other, ans
    assert_eq!(ans, run((ans, 2), &[(other, 1), (other_p, 0)]));
    // other, other_p, ans
    assert_eq!(other, run((ans, 2), &[(other, 0), (other_p, 1)]));
    // ans, other, other_p
    assert_eq!(ans, run((ans, 0), &[(other, 1), (other_p, 2)]));

    assert_eq!(ans, run((ans, 0), &[]));

    assert_eq!(ans, run((ans, 0), &[(other_p, 2)]));
    assert_eq!(ans, run((ans, 0), &[(other, 1)]));
    // other, other_p, ans
    assert_eq!(ans, run((ans, 2), &[(other_p, 1)]));
    assert_eq!(other, run((ans, 2), &[(other, 0)]));
}

#[test]
fn test_the_multi_sink_multifuzz_algo() {
    let (root, b1_1, b1_2, b2_1) = ("a/b/c/d", "a/b/c", "b/c", "a/c/d");
    let go = |r: i64, a: i64, b: i64, c: i64| run((b1_2, b), &[(root, r), (b1_1, a), (b2_1, c)]);

    // root, b1_1, b2_1, b1_2
    assert_eq!(b2_1, go(0, 1, 3, 2));
    // root, b1_1, b1_2, b2_1
    assert_eq!(b1_2, go(0, 1, 2, 3));
    // b1_1, root, b1_2, b2_1
    assert_eq!(b1_2, go(1, 0, 2, 3));
    // b1_1, root, b2_1, b1_2
    assert_eq!(b1_2, go(1, 0, 3, 2));
}

#[test]
fn test_multifuzz_determined_ans() {
    let abcd = ("a/b/c/d", 0);
    let bacd = ("b/a/c/d", 1);
    let cabd = ("c/a/b/d", 2);
    let dacb = ("d/a/c/b", 3);
    let acbd = ("a/c/b/d", 4);

    assert_eq!(abcd.0, run(abcd, &[bacd, cabd, dacb, acbd]));
    assert_eq!(bacd.0, run(bacd, &[abcd, cabd, dacb, acbd]));
    assert_eq!(dacb.0, run(dacb, &[abcd, bacd, cabd, acbd]));

    // prefix is still preferred
    let abc = ("a/b/c", 0);
    let cab = ("c/a/b", 1);
    assert_eq!(abc.0, run(abc, &[cab, abcd, bacd, cabd, dacb]));
    assert_eq!(cab.0, run(cab, &[abc, abcd, bacd, cabd, dacb]));
}

#[test]
fn lone_dot_among_anonymous_scripts_takes_the_latest() {
    let ans = info(ScriptName::Anonymous(1), 5);
    let others = vec![info(ScriptName::Anonymous(10), 9), info(ScriptName::Anonymous(12), 9)];
    let others: Vec<&ScriptInfo> = others.iter().collect();
    assert_eq!(resolve_multi_fuzz(".", &ans, others).name.key(), ".12");
}

#[test]
fn prefix_rule_applies_to_other_patterns() {
    let ans = info(ScriptName::Anonymous(1), 5);
    let ten = info(ScriptName::Anonymous(10), 9);
    assert_eq!(resolve_multi_fuzz("1", &ans, vec![&ten]).name.key(), ".1");
    assert_eq!(resolve_multi_fuzz(".", &ans, vec![&ten]).name.key(), ".10");
}

#[test]
fn script_times() {
    let mut s = obj("x", 0);
    s.write(150);
    s.exec(120);
    s.exec_done(130);
    assert_eq!(s.last_time(), 150);
    s.humble_time = Some(200);
    assert_eq!(s.last_major_time(), 200);
    assert_eq!(s.last_time(), 150);
    assert_eq!(s.exec_count, 1);
}
