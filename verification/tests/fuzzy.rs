use hyper_scripter::fuzzy::{foreach_reorder, fuzz, is_prefix, FuzzResult};

fn extract_multifuzz(res: FuzzResult<String>) -> Vec<String> {
    match res {
        FuzzResult::Multi { ans, others } => {
            let mut ret = vec![];
            ret.push(ans);
            for data in others.into_iter() {
                ret.push(data)
            }
            ret.sort();
            ret
        }
        _ => unreachable!(),
    }
}

fn extract_high(res: FuzzResult<String>) -> String {
    match res {
        FuzzResult::High(t) => t,
        _ => unreachable!(),
    }
}

fn do_fuzz(name: &str, v: &[&str]) -> Option<FuzzResult<String>> {
    fuzz(name, v.iter().map(|s| s.to_string()).collect(), "/")
}

#[test]
fn test_fuzz() {
    let t1 = "測試腳本1";
    let t2 = "測試腳本2";
    let t3 = ".42";
    let vec = vec![t1, t2, t3];

    let res = do_fuzz("測試1", &vec).unwrap();
    assert_eq!(extract_high(res), t1);

    let res = do_fuzz("42", &vec).unwrap();
    assert_eq!(extract_high(res), t3);

    let res = do_fuzz("找不到", &vec);
    assert!(res.is_none());

    let res = do_fuzz("測試", &vec).unwrap();
    let v = extract_multifuzz(res);
    assert_eq!(v, vec!["測試腳本1".to_owned(), "測試腳本2".to_owned()]);

    let mut vec = vec!["hs_test", "hs_build", "hs_dir", "runhs", "hs_run"];
    vec.sort();
    let err = do_fuzz("hs", &vec).unwrap();
    let v = extract_multifuzz(err);
    assert_eq!(v, vec);
}

#[test]
fn test_fuzz_with_len() {
    let t1 = "測試腳本1";
    let t2 = "測試腳本23456";
    let vec = vec![t1, t2];
    let res = do_fuzz("測試", &vec).unwrap();
    assert_eq!(extract_high(res), t1, "模糊搜尋無法找出較短者");
}

#[test]
fn test_reorder() {
    let arr = "aa::bb::cc";
    let mut buffer = foreach_reorder(arr, "::");
    buffer.sort();
    assert_eq!(
        vec![
            "aa::bb::cc",
            "aa::cc::bb",
            "bb::aa::cc",
            "bb::cc::aa",
            "cc::aa::bb",
            "cc::bb::aa"
        ],
        buffer
    );
}

#[test]
fn test_is_prefix() {
    let sep = "::";
    assert!(is_prefix("aa", "aabb", sep));
    assert!(is_prefix("aa::bb", "bb::cc::aa", sep));
    assert!(is_prefix("c", "bb::cc::aa", sep));
    assert!(is_prefix("aa::bb", "bb::aa1", sep));

    assert!(is_prefix("aa::b", "bb::cc::aa", sep));
    assert!(is_prefix("a::bb", "bb::cc::aa", sep));

    assert!(!is_prefix("abb", "aabb", sep));
    assert!(!is_prefix("aabb", "aa::bb", sep));

    assert!(!is_prefix("aa::bb::cc", "aa::bb", sep));
    assert!(!is_prefix("aa::dd", "bb::cc::aa", sep));
}

#[test]
fn reorder_of_a_single_part_is_itself() {
    assert_eq!(foreach_reorder("abc", "/"), vec!["abc".to_owned()]);
}

#[test]
fn fuzz_of_empty_list_finds_nothing() {
    assert!(do_fuzz("abc", &[]).is_none());
}

#[test]
fn reordering_of_same_length_is_a_prefix() {
    assert!(is_prefix("a/b", "b/a", "/"));
    assert!(!is_prefix("a/b/c", "b/a", "/"));
}
