//! The scripts known, split into those shown and those hidden by the tag
//! selectors or by how recently they were used.
use crate::config::{recent_text, Recent};
use crate::script::{name_key, ScriptInfo, ScriptName};
use crate::tag::{spec_group_select, Tag, TagSelectorGroup};
use crate::text::{from_chars, push_str, str_eq, to_chars};
use vstd::prelude::*;

verus! {

/// Which scripts a query looks at: those shown, all, or those hidden.
#[derive(Debug, Clone, Copy, PartialEq, Eq, Structural)]
pub enum Visibility {
    Normal,
    All,
    Inverse,
}

/// The visibility that looks at the other scripts; `All` stays `All`.
pub open spec fn spec_invert(v: Visibility) -> Visibility {
    match v {
        Visibility::Normal => Visibility::Inverse,
        Visibility::Inverse => Visibility::Normal,
        Visibility::All => Visibility::All,
    }
}

impl Visibility {
    pub fn is_normal(&self) -> (r: bool)
        ensures
            r == (*self == Visibility::Normal),
    {
        matches!(self, Visibility::Normal)
    }

    pub fn is_all(&self) -> (r: bool)
        ensures
            r == (*self == Visibility::All),
    {
        matches!(self, Visibility::All)
    }

    pub fn is_inverse(&self) -> (r: bool)
        ensures
            r == (*self == Visibility::Inverse),
    {
        matches!(self, Visibility::Inverse)
    }

    pub fn invert(self) -> (r: Visibility)
        ensures
            r == spec_invert(self),
    {
        match self {
            Visibility::Normal => Visibility::Inverse,
            Visibility::Inverse => Visibility::Normal,
            Visibility::All => Visibility::All,
        }
    }
}

/// Inverting twice gives back the visibility.
pub proof fn law_invert_twice(v: Visibility)
    ensures
        spec_invert(spec_invert(v)) == v,
{
}

/// Which scripts are recent, and whether the others are the ones shown.
#[derive(Debug, Clone, Copy, PartialEq, Eq, Structural)]
pub struct RecentFilter {
    pub recent: Recent,
    pub archaeology: bool,
}

impl RecentFilter {
    pub fn default() -> (r: RecentFilter)
        ensures
            r == (RecentFilter { recent: Recent::NoNeglect, archaeology: false }),
    {
        RecentFilter { recent: Recent::default(), archaeology: false }
    }

    /// The setting of recency, followed by ` (archaeology)` when the old scripts
    /// are the ones shown.
    pub fn to_string(&self) -> (r: String)
        ensures
            r@ == recent_text(self.recent) + if self.archaeology {
                " (archaeology)"@
            } else {
                Seq::empty()
            },
    {
        let mut v = to_chars(self.recent.to_string().as_str());
        if self.archaeology {
            push_str(&mut v, " (archaeology)");
        } else {
            assert(v@ =~= v@ + Seq::<char>::empty());
        }
        from_chars(v.as_slice())
    }
}

/// The time before which a script is too old: `None` for no limit at all;
/// `Some(None)` when only neglect counts; otherwise `d` days before `now`.
pub open spec fn time_bound(recent: Recent, now: int) -> Option<Option<int>> {
    match recent {
        Recent::Timeless => None,
        Recent::NoNeglect => Some(None),
        Recent::Days(d) => Some(Some(now - d * 86400)),
    }
}

/// The later of two optional times, a time being later than none.
pub open spec fn later_opt(a: Option<int>, b: Option<i64>) -> Option<int> {
    match (a, b) {
        (Some(x), Some(y)) => if x >= y {
            Some(x)
        } else {
            Some(y as int)
        },
        (Some(x), None) => Some(x),
        (None, Some(y)) => Some(y as int),
        (None, None) => None,
    }
}

/// A script last used (reads aside) before the bound, or before it was
/// neglected, is too old.
pub open spec fn too_old(bound: Option<Option<int>>, info: ScriptInfo) -> bool {
    match bound {
        None => false,
        Some(b) => match later_opt(b, info.neglect_time) {
            Some(t) => t > info.spec_last_major_time(),
            None => false,
        },
    }
}

/// Whether a script is hidden, and whether for its age: a script the selectors
/// refuse is hidden; otherwise it is hidden when it is too old, or, in
/// archaeology, when it is not.
pub open spec fn hide_of(sel: Seq<(bool, Seq<crate::tag::ControlV>)>, bound: Option<Option<int>>, archaeology: bool, info: ScriptInfo) -> (bool, bool) {
    if !spec_group_select(sel, info.tags@, info.ty@) {
        (true, false)
    } else {
        let h = archaeology != too_old(bound, info);
        (h, h)
    }
}

/// The scripts shown, those hidden, and how many were hidden for their age.
pub open spec fn partition_scripts(
    scripts: Seq<ScriptInfo>,
    sel: Seq<(bool, Seq<crate::tag::ControlV>)>,
    bound: Option<Option<int>>,
    archaeology: bool,
) -> (Seq<ScriptInfo>, Seq<ScriptInfo>, nat)
    decreases scripts.len(),
{
    if scripts.len() == 0 {
        (Seq::empty(), Seq::empty(), 0)
    } else {
        let (a, b, c) = partition_scripts(scripts.drop_last(), sel, bound, archaeology);
        let s = scripts.last();
        let (h, t) = hide_of(sel, bound, archaeology, s);
        (if h {
            a
        } else {
            a.push(s)
        }, if h {
            b.push(s)
        } else {
            b
        }, c + if t {
            1nat
        } else {
            0nat
        })
    }
}

/// The scripts of `b` are those of `a`, but for when each was last read.
pub open spec fn same_but_reads(a: Seq<ScriptInfo>, b: Seq<ScriptInfo>) -> bool {
    a.len() == b.len() && forall|i: int|
        0 <= i < a.len() ==> #[trigger] b[i] == (ScriptInfo { read_time: b[i].read_time, ..a[i] })
}

/// Reading a script does not count as using it: whether a script is hidden, and
/// whether for its age or neglect, is the same whatever its read time.
pub proof fn law_hiding_ignores_reads(
    sel: Seq<(bool, Seq<crate::tag::ControlV>)>,
    bound: Option<Option<int>>,
    archaeology: bool,
    info: ScriptInfo,
    read_time: i64,
)
    ensures
        hide_of(sel, bound, archaeology, ScriptInfo { read_time, ..info }) == hide_of(sel, bound, archaeology, info),
{
}

/// Splitting scripts that differ only in when they were last read puts each on
/// the same side and counts as many hidden for their age.
pub proof fn law_partition_ignores_reads(
    a: Seq<ScriptInfo>,
    b: Seq<ScriptInfo>,
    sel: Seq<(bool, Seq<crate::tag::ControlV>)>,
    bound: Option<Option<int>>,
    archaeology: bool,
)
    requires
        same_but_reads(a, b),
    ensures
        ({
            let (sa, ha, ca) = partition_scripts(a, sel, bound, archaeology);
            let (sb, hb, cb) = partition_scripts(b, sel, bound, archaeology);
            same_but_reads(sa, sb) && same_but_reads(ha, hb) && ca == cb
        }),
    decreases a.len(),
{
    if a.len() > 0 {
        let da = a.drop_last();
        let db = b.drop_last();
        assert forall|i: int| 0 <= i < da.len() implies #[trigger] db[i] == (ScriptInfo {
            read_time: db[i].read_time,
            ..da[i]
        }) by {
            assert(db[i] == b[i] && da[i] == a[i]);
        }
        law_partition_ignores_reads(da, db, sel, bound, archaeology);
        let x = a.last();
        let y = b.last();
        assert(y == (ScriptInfo { read_time: y.read_time, ..x })) by {
            assert(b[b.len() - 1] == (ScriptInfo { read_time: b[b.len() - 1].read_time, ..a[a.len() - 1] }));
        }
        law_hiding_ignores_reads(sel, bound, archaeology, x, y.read_time);
        let (sa0, ha0, ca0) = partition_scripts(da, sel, bound, archaeology);
        let (sb0, hb0, cb0) = partition_scripts(db, sel, bound, archaeology);
        let (sa, ha, ca) = partition_scripts(a, sel, bound, archaeology);
        let (sb, hb, cb) = partition_scripts(b, sel, bound, archaeology);
        assert forall|i: int| 0 <= i < sa.len() implies #[trigger] sb[i] == (ScriptInfo {
            read_time: sb[i].read_time,
            ..sa[i]
        }) by {
            if i < sa0.len() {
                assert(sa[i] == sa0[i] && sb[i] == sb0[i]);
            }
        }
        assert forall|i: int| 0 <= i < ha.len() implies #[trigger] hb[i] == (ScriptInfo {
            read_time: hb[i].read_time,
            ..ha[i]
        }) by {
            if i < ha0.len() {
                assert(ha[i] == ha0[i] && hb[i] == hb0[i]);
            }
        }
    }
}

/// No two scripts share a name.
pub open spec fn script_names_distinct(s: Seq<ScriptInfo>) -> bool {
    forall|i: int, j: int|
        0 <= i < j < s.len() ==> name_key((#[trigger] s[i]).name@) != name_key((#[trigger] s[j]).name@)
}

/// Every script of `part` is one of `all`.
pub open spec fn drawn_from(part: Seq<ScriptInfo>, all: Seq<ScriptInfo>) -> bool {
    forall|i: int| 0 <= i < part.len() ==> exists|k: int| 0 <= k < all.len() && #[trigger] part[i] == all[k]
}

/// Splitting scripts whose names are distinct, as the store keeps them, draws
/// the shown and the hidden scripts from those given, leaves the names distinct
/// among the shown and among the hidden, and shows no name that is also hidden.
pub proof fn law_partition_names_distinct(
    scripts: Seq<ScriptInfo>,
    sel: Seq<(bool, Seq<crate::tag::ControlV>)>,
    bound: Option<Option<int>>,
    archaeology: bool,
)
    requires
        script_names_distinct(scripts),
    ensures
        ({
            let (a, b, c) = partition_scripts(scripts, sel, bound, archaeology);
            &&& drawn_from(a, scripts)
            &&& drawn_from(b, scripts)
            &&& script_names_distinct(a)
            &&& script_names_distinct(b)
            &&& forall|i: int, j: int|
                0 <= i < a.len() && 0 <= j < b.len() ==> name_key((#[trigger] a[i]).name@) != name_key(
                    (#[trigger] b[j]).name@,
                )
        }),
    decreases scripts.len(),
{
    if scripts.len() > 0 {
        let d = scripts.drop_last();
        assert forall|i: int, j: int| 0 <= i < j < d.len() implies name_key((#[trigger] d[i]).name@) != name_key(
            (#[trigger] d[j]).name@,
        ) by {
            assert(d[i] == scripts[i] && d[j] == scripts[j]);
        }
        law_partition_names_distinct(d, sel, bound, archaeology);
        let (a0, b0, c0) = partition_scripts(d, sel, bound, archaeology);
        let (a, b, c) = partition_scripts(scripts, sel, bound, archaeology);
        let x = scripts.last();
        let n = scripts.len() - 1;
        assert forall|i: int| 0 <= i < a0.len() implies name_key((#[trigger] a0[i]).name@) != name_key(x.name@) by {
            let k = choose|k: int| 0 <= k < d.len() && #[trigger] a0[i] == d[k];
            assert(d[k] == scripts[k]);
            assert(scripts[n] == x);
        }
        assert forall|i: int| 0 <= i < b0.len() implies name_key((#[trigger] b0[i]).name@) != name_key(x.name@) by {
            let k = choose|k: int| 0 <= k < d.len() && #[trigger] b0[i] == d[k];
            assert(d[k] == scripts[k]);
            assert(scripts[n] == x);
        }
        assert forall|i: int| 0 <= i < a.len() implies exists|k: int| 0 <= k < scripts.len() && #[trigger] a[i] == scripts[k] by {
            if i < a0.len() {
                assert(a[i] == a0[i]);
                let k = choose|k: int| 0 <= k < d.len() && #[trigger] a0[i] == d[k];
                assert(d[k] == scripts[k]);
            } else {
                assert(a[i] == scripts[n]);
            }
        }
        assert forall|i: int| 0 <= i < b.len() implies exists|k: int| 0 <= k < scripts.len() && #[trigger] b[i] == scripts[k] by {
            if i < b0.len() {
                assert(b[i] == b0[i]);
                let k = choose|k: int| 0 <= k < d.len() && #[trigger] b0[i] == d[k];
                assert(d[k] == scripts[k]);
            } else {
                assert(b[i] == scripts[n]);
            }
        }
        assert forall|i: int, j: int| 0 <= i < j < a.len() implies name_key((#[trigger] a[i]).name@) != name_key(
            (#[trigger] a[j]).name@,
        ) by {
            assert(a[i] == a0[i]);
            if j < a0.len() {
                assert(a[j] == a0[j]);
            }
        }
        assert forall|i: int, j: int| 0 <= i < j < b.len() implies name_key((#[trigger] b[i]).name@) != name_key(
            (#[trigger] b[j]).name@,
        ) by {
            assert(b[i] == b0[i]);
            if j < b0.len() {
                assert(b[j] == b0[j]);
            }
        }
        assert forall|i: int, j: int| 0 <= i < a.len() && 0 <= j < b.len() implies name_key(
            (#[trigger] a[i]).name@,
        ) != name_key((#[trigger] b[j]).name@) by {
            if i < a0.len() && j < b0.len() {
                assert(a[i] == a0[i] && b[j] == b0[j]);
            } else if i < a0.len() {
                assert(a[i] == a0[i] && b[j] == x);
            } else {
                assert(a[i] == x && b[j] == b0[j]);
            }
        }
    }
}

/// The scripts known, split into those shown and those hidden.
#[derive(Debug)]
pub struct ScriptRepo {
    map: Vec<ScriptInfo>,
    hidden_map: Vec<ScriptInfo>,
    pub time_hidden_count: u32,
    pub recent_filter: RecentFilter,
}

/// The scripts a visibility looks at, the shown ones first.
pub open spec fn by_visibility(shown: Seq<ScriptInfo>, hidden: Seq<ScriptInfo>, vis: Visibility) -> Seq<ScriptInfo> {
    match vis {
        Visibility::Normal => shown,
        Visibility::All => shown + hidden,
        Visibility::Inverse => hidden,
    }
}

/// `s` with `x` placed after every leading script used no later.
pub open spec fn insert_by_time(s: Seq<ScriptInfo>, x: ScriptInfo) -> Seq<ScriptInfo>
    decreases s.len(),
{
    if s.len() == 0 {
        seq![x]
    } else if s[0].spec_last_time() <= x.spec_last_time() {
        seq![s[0]] + insert_by_time(s.drop_first(), x)
    } else {
        seq![x] + s
    }
}

/// Stable sort from the script used first to the one used last.
pub open spec fn sort_by_time(s: Seq<ScriptInfo>) -> Seq<ScriptInfo>
    decreases s.len(),
{
    if s.len() == 0 {
        s
    } else {
        insert_by_time(sort_by_time(s.drop_last()), s.last())
    }
}

/// The first script among `s` with the name `key`.
pub open spec fn find_by_key(s: Seq<ScriptInfo>, key: Seq<char>) -> Option<int>
    decreases s.len(),
{
    if s.len() == 0 {
        None
    } else {
        match find_by_key(s.drop_last(), key) {
            Some(i) => Some(i),
            None => if name_key(s.last().name@) == key {
                Some(s.len() - 1)
            } else {
                None
            },
        }
    }
}

impl ScriptRepo {
    /// The scripts shown.
    pub closed spec fn spec_shown(&self) -> Seq<ScriptInfo> {
        self.map@
    }

    /// The scripts hidden.
    pub closed spec fn spec_hidden(&self) -> Seq<ScriptInfo> {
        self.hidden_map@
    }

    /// How many scripts were hidden for their age, and the filter of recency.
    pub closed spec fn spec_counts(&self) -> (u32, RecentFilter) {
        (self.time_hidden_count, self.recent_filter)
    }

    /// Splits `scripts` by the selectors and by how recently they were used, with
    /// `now` the current time.
    pub fn new(recent: RecentFilter, scripts: Vec<ScriptInfo>, selector: &TagSelectorGroup, now: i64) -> (r:
        ScriptRepo)
        requires
            scripts@.len() <= u32::MAX,
            recent.recent matches Recent::Days(d) ==> now - d * 86400 >= i64::MIN,
        ensures
            ({
                let (a, b, c) = partition_scripts(
                    scripts@,
                    selector@,
                    time_bound(recent.recent, now as int),
                    recent.archaeology,
                );
                &&& r.spec_shown() == a
                &&& r.spec_hidden() == b
                &&& r.spec_counts() == (c as u32, recent)
            }),
            script_names_distinct(scripts@) ==> {
                &&& script_names_distinct(r.spec_shown())
                &&& script_names_distinct(r.spec_hidden())
                &&& forall|i: int, j: int|
                    0 <= i < r.spec_shown().len() && 0 <= j < r.spec_hidden().len() ==> name_key(
                        (#[trigger] r.spec_shown()[i]).name@,
                    ) != name_key((#[trigger] r.spec_hidden()[j]).name@)
            },
    {
        let ghost sv = scripts@;
        let ghost sel = selector@;
        let ghost bound = time_bound(recent.recent, now as int);
        let bound_time: Option<Option<i64>> = match recent.recent {
            Recent::Timeless => None,
            Recent::NoNeglect => Some(None),
            Recent::Days(d) => Some(Some(now - (d as i64) * 86400)),
        };
        let mut map: Vec<ScriptInfo> = Vec::new();
        let mut hidden_map: Vec<ScriptInfo> = Vec::new();
        let mut count: u32 = 0;
        let mut rest = scripts;
        let ghost mut k: int = 0;
        assert(sv.take(0) =~= Seq::<ScriptInfo>::empty());
        while rest.len() > 0
            invariant
                sv.len() <= u32::MAX,
                sel == selector@,
                bound == time_bound(recent.recent, now as int),
                bound == match bound_time {
                    None => None::<Option<int>>,
                    Some(None) => Some(None::<int>),
                    Some(Some(t)) => Some(Some(t as int)),
                },
                0 <= k <= sv.len(),
                rest@ == sv.skip(k),
                (map@, hidden_map@, count as nat) == partition_scripts(sv.take(k), sel, bound, recent.archaeology),
                count <= k,
            decreases rest@.len(),
        {
            let ghost r0 = rest@;
            let s = rest.remove(0);
            assert(s == sv[k]);
            assert(rest@ =~= sv.skip(k + 1));
            assert(sv.take(k + 1).drop_last() =~= sv.take(k));
            assert(sv.take(k + 1).last() == s);
            let selected = selector.select(&s.tags, &s.ty);
            let mut hidden = !selected;
            if !hidden {
                let overtime = too_old_exec(bound_time, s.neglect_time, s.last_major_time());
                assert(overtime == too_old(bound, s));
                hidden = recent.archaeology != overtime;
                if hidden {
                    count = count + 1;
                }
            }
            if hidden {
                hidden_map.push(s);
            } else {
                map.push(s);
            }
            proof {
                k = k + 1;
            }
        }
        assert(sv.take(k) =~= sv);
        proof {
            if script_names_distinct(sv) {
                law_partition_names_distinct(sv, sel, bound, recent.archaeology);
            }
        }
        ScriptRepo { map, hidden_map, time_hidden_count: count, recent_filter: recent }
    }

    /// The scripts that `visibility` looks at.
    pub fn iter_by_vis(&self, visibility: Visibility) -> (r: Vec<&ScriptInfo>)
        ensures
            r@.len() == by_visibility(self.spec_shown(), self.spec_hidden(), visibility).len(),
            forall|i: int| 0 <= i < r@.len() ==> *r@[i] == by_visibility(self.spec_shown(), self.spec_hidden(), visibility)[i],
    {
        let mut r: Vec<&ScriptInfo> = Vec::new();
        let ghost all = by_visibility(self.spec_shown(), self.spec_hidden(), visibility);
        if !visibility.is_inverse() {
            let mut i: usize = 0;
            while i < self.map.len()
                invariant
                    i <= self.map@.len(),
                    r@.len() == i,
                    forall|j: int| 0 <= j < i ==> *r@[j] == self.map@[j],
                decreases self.map@.len() - i,
            {
                r.push(&self.map[i]);
                i = i + 1;
            }
        }
        if !visibility.is_normal() {
            let base = r.len();
            let mut i: usize = 0;
            while i < self.hidden_map.len()
                invariant
                    base == r@.len() - i,
                    i <= self.hidden_map@.len(),
                    forall|j: int| 0 <= j < base ==> *r@[j] == if visibility == Visibility::All {
                        self.map@[j]
                    } else {
                        all[j]
                    },
                    base == if visibility == Visibility::All {
                        self.map@.len()
                    } else {
                        0
                    },
                    forall|j: int| 0 <= j < i ==> *r@[base + j] == self.hidden_map@[j],
                decreases self.hidden_map@.len() - i,
            {
                r.push(&self.hidden_map[i]);
                i = i + 1;
            }
        }
        r
    }

    /// The script used `n`-th most lately among those `visibility` looks at.
    pub fn latest_mut(&self, n: usize, visibility: Visibility) -> (r: Option<&ScriptInfo>)
        requires
            n >= 1,
        ensures
            ({
                let v = sort_by_time(by_visibility(self.spec_shown(), self.spec_hidden(), visibility));
                if v.len() >= n {
                    r matches Some(s) && *s == v[v.len() - n]
                } else {
                    r is None
                }
            }),
    {
        let all = self.iter_by_vis(visibility);
        let ghost av = by_visibility(self.spec_shown(), self.spec_hidden(), visibility);
        let mut sorted: Vec<&ScriptInfo> = Vec::new();
        let mut i: usize = 0;
        assert(av.take(0) =~= Seq::<ScriptInfo>::empty());
        while i < all.len()
            invariant
                all@.len() == av.len(),
                forall|j: int| 0 <= j < all@.len() ==> *all@[j] == av[j],
                i <= all@.len(),
                sorted@.len() == sort_by_time(av.take(i as int)).len(),
                forall|j: int| 0 <= j < sorted@.len() ==> *sorted@[j] == sort_by_time(av.take(i as int))[j],
            decreases all@.len() - i,
        {
            let x = all[i];
            let t = x.last_time();
            let ghost s = sort_by_time(av.take(i as int));
            let mut p: usize = 0;
            assert(s.skip(0) =~= s);
            assert(s.take(0) + insert_by_time(s.skip(0), *x) =~= insert_by_time(s, *x));
            while p < sorted.len() && sorted[p].last_time() <= t
                invariant
                    sorted@.len() == s.len(),
                    forall|j: int| 0 <= j < sorted@.len() ==> *sorted@[j] == s[j],
                    t == x.spec_last_time(),
                    p <= s.len(),
                    insert_by_time(s, *x) == s.take(p as int) + insert_by_time(s.skip(p as int), *x),
                decreases s.len() - p,
            {
                assert(s.skip(p as int).drop_first() =~= s.skip(p + 1));
                assert(s.skip(p as int)[0] == s[p as int]);
                assert(s.take(p + 1) =~= s.take(p as int).push(s[p as int]));
                assert(s.take(p as int) + (seq![s[p as int]] + insert_by_time(s.skip(p + 1), *x)) =~= s.take(p + 1)
                    + insert_by_time(s.skip(p + 1), *x));
                p = p + 1;
            }
            proof {
                if p < s.len() {
                    assert(s.skip(p as int)[0] == s[p as int]);
                    assert(insert_by_time(s.skip(p as int), *x) == seq![*x] + s.skip(p as int));
                } else {
                    assert(s.skip(p as int) =~= Seq::<ScriptInfo>::empty());
                }
            }
            let ghost before = sorted@;
            sorted.insert(p, x);
            assert(av.take(i + 1).drop_last() =~= av.take(i as int));
            assert(av.take(i + 1).last() == *x);
            let ghost goal = sort_by_time(av.take(i + 1));
            assert(goal == insert_by_time(s, *x));
            assert forall|j: int| 0 <= j < sorted@.len() implies *sorted@[j] == goal[j] by {
                if j < p {
                    assert(sorted@[j] == before[j]);
                } else if j > p {
                    assert(sorted@[j] == before[j - 1]);
                }
            }
            i = i + 1;
        }
        assert(av.take(av.len() as int) =~= av);
        let len = sorted.len();
        if len >= n {
            Some(sorted[len - n])
        } else {
            None
        }
    }

    /// The script called `name` among those `visibility` looks at; with `All`, a
    /// shown script comes first.
    pub fn get_mut(&self, name: &ScriptName, visibility: Visibility) -> (r: Option<&ScriptInfo>)
        ensures
            ({
                let key = name_key(name@);
                let found_shown = find_by_key(self.spec_shown(), key);
                let found_hidden = find_by_key(self.spec_hidden(), key);
                match visibility {
                    Visibility::Normal => match found_shown {
                        Some(i) => r matches Some(s) && *s == self.spec_shown()[i],
                        None => r is None,
                    },
                    Visibility::Inverse => match found_hidden {
                        Some(i) => r matches Some(s) && *s == self.spec_hidden()[i],
                        None => r is None,
                    },
                    Visibility::All => match (found_shown, found_hidden) {
                        (Some(i), _) => r matches Some(s) && *s == self.spec_shown()[i],
                        (None, Some(i)) => r matches Some(s) && *s == self.spec_hidden()[i],
                        (None, None) => r is None,
                    },
                }
            }),
    {
        let key = name.key();
        match visibility {
            Visibility::Normal => find_in(&self.map, key.as_str()),
            Visibility::Inverse => find_in(&self.hidden_map, key.as_str()),
            Visibility::All => {
                let info = find_in(&self.map, key.as_str());
                if info.is_some() {
                    info
                } else {
                    find_in(&self.hidden_map, key.as_str())
                }
            },
        }
    }
}

fn too_old_exec(bound: Option<Option<i64>>, neglect: Option<i64>, last_major: i64) -> (r: bool)
    ensures
        r == match bound {
            None => false,
            Some(b) => match later_opt(
                match b {
                    Some(t) => Some(t as int),
                    None => None,
                },
                neglect,
            ) {
                Some(t) => t > last_major,
                None => false,
            },
        },
{
    match bound {
        None => false,
        Some(b) => {
            let t: Option<i64> = match (b, neglect) {
                (Some(x), Some(y)) => if x >= y {
                    Some(x)
                } else {
                    Some(y)
                },
                (Some(x), None) => Some(x),
                (None, Some(y)) => Some(y),
                (None, None) => None,
            };
            match t {
                Some(t) => t > last_major,
                None => false,
            }
        },
    }
}

proof fn lemma_find_by_key(s: Seq<ScriptInfo>, key: Seq<char>, i: int)
    requires
        0 <= i <= s.len(),
        forall|j: int| 0 <= j < i ==> name_key(#[trigger] s[j].name@) != key,
    ensures
        find_by_key(s.take(i), key) is None,
        i < s.len() && name_key(s[i].name@) == key ==> find_by_key(s, key) == Some(i),
    decreases s.len(),
{
    if i < s.len() {
        if i == s.len() - 1 {
            lemma_find_by_key(s.drop_last(), key, i);
            assert(s.drop_last().take(i) =~= s.take(i));
            assert(s.drop_last() =~= s.take(i));
        } else {
            lemma_find_by_key(s.drop_last(), key, i);
            assert(s.drop_last().take(i) =~= s.take(i));
        }
    } else {
        if s.len() > 0 {
            lemma_find_by_key(s.drop_last(), key, i - 1);
            assert(s.drop_last().take(i - 1) =~= s.drop_last());
            assert(s.take(i) =~= s);
        } else {
            assert(s.take(i) =~= s);
        }
    }
}

fn find_in<'a>(v: &'a Vec<ScriptInfo>, key: &str) -> (r: Option<&'a ScriptInfo>)
    ensures
        match find_by_key(v@, key@) {
            Some(i) => r matches Some(s) && *s == v@[i],
            None => r is None,
        },
{
    let mut i: usize = 0;
    while i < v.len()
        invariant
            i <= v@.len(),
            forall|j: int| 0 <= j < i ==> name_key(#[trigger] v@[j].name@) != key@,
        decreases v@.len() - i,
    {
        let k = v[i].name.key();
        if str_eq(k.as_str(), key) {
            proof {
                lemma_find_by_key(v@, key@, i as int);
            }
            return Some(&v[i]);
        }
        i = i + 1;
    }
    proof {
        lemma_find_by_key(v@, key@, v@.len() as int);
        assert(v@.take(v@.len() as int) =~= v@);
    }
    None
}

/// How runs are traced: fully, not at all, or humbly (history is kept but the
/// script's latest time is left alone).
#[derive(Debug, Clone, Copy, PartialEq, Eq, Structural)]
pub enum TraceOption {
    Normal,
    NoTrace,
    Humble,
}

/// What changed of a script since it was loaded: its record (name, tags, type),
/// and which of its times carry a new event.
#[derive(Debug, Clone, Copy)]
pub struct ScriptChanges {
    pub info: bool,
    pub read: bool,
    pub write: bool,
    pub run: bool,
    pub run_done: bool,
}

/// A step of saving a script's changes to the databases.
#[derive(Debug, Clone, Copy, PartialEq, Eq, Structural)]
pub enum ChangeStep {
    UpdateInfo,
    RecordExecDone,
    UpdateLastTime,
    RecordRead,
    RecordWrite,
    RecordExec,
}

/// The steps that save a script's changes, up to the end of a run when there is
/// one: the record first when it changed; nothing more when nothing is traced;
/// the end of a run alone when there is one (what follows depends on whether it
/// was recorded, see `after_exec_done`); otherwise the latest times, then each
/// new event: read, write, run.
pub open spec fn spec_change_steps(c: ScriptChanges, trace: TraceOption) -> Seq<ChangeStep> {
    let head = if c.info {
        seq![ChangeStep::UpdateInfo]
    } else {
        Seq::empty()
    };
    if trace == TraceOption::NoTrace {
        head
    } else if c.run_done {
        head.push(ChangeStep::RecordExecDone)
    } else {
        head + seq![ChangeStep::UpdateLastTime] + (if c.read {
            seq![ChangeStep::RecordRead]
        } else {
            Seq::empty()
        }) + (if c.write {
            seq![ChangeStep::RecordWrite]
        } else {
            Seq::empty()
        }) + (if c.run {
            seq![ChangeStep::RecordExec]
        } else {
            Seq::empty()
        })
    }
}

pub fn change_steps(c: ScriptChanges, trace: TraceOption) -> (r: Vec<ChangeStep>)
    ensures
        r@ == spec_change_steps(c, trace),
{
    let mut r: Vec<ChangeStep> = Vec::new();
    if c.info {
        r.push(ChangeStep::UpdateInfo);
    }
    if trace == TraceOption::NoTrace {
        assert(r@ =~= spec_change_steps(c, trace));
        return r;
    }
    if c.run_done {
        r.push(ChangeStep::RecordExecDone);
        assert(r@ =~= spec_change_steps(c, trace));
        return r;
    }
    r.push(ChangeStep::UpdateLastTime);
    if c.read {
        r.push(ChangeStep::RecordRead);
    }
    if c.write {
        r.push(ChangeStep::RecordWrite);
    }
    if c.run {
        r.push(ChangeStep::RecordExec);
    }
    assert(r@ =~= spec_change_steps(c, trace));
    r
}

/// After the end of a run was recorded with the id `id`: the latest times are
/// saved unless the record was left out (id 0).
pub fn after_exec_done(id: i64) -> (r: Vec<ChangeStep>)
    ensures
        r@ == if id != 0 {
            seq![ChangeStep::UpdateLastTime]
        } else {
            Seq::<ChangeStep>::empty()
        },
{
    let mut r: Vec<ChangeStep> = Vec::new();
    if id != 0 {
        r.push(ChangeStep::UpdateLastTime);
    }
    assert(r@ =~= if id != 0 {
        seq![ChangeStep::UpdateLastTime]
    } else {
        Seq::<ChangeStep>::empty()
    });
    r
}

/// How the latest times are saved: not at all when nothing is traced; for a
/// humble trace only the humble time (`true`); otherwise all of them (`false`).
pub fn last_time_update(trace: TraceOption) -> (r: Option<bool>)
    ensures
        r == match trace {
            TraceOption::NoTrace => None,
            TraceOption::Humble => Some(true),
            TraceOption::Normal => Some(false),
        },
{
    match trace {
        TraceOption::NoTrace => None,
        TraceOption::Humble => Some(true),
        TraceOption::Normal => Some(false),
    }
}

/// The tags of a script as stored: their names joined with `,`.
pub fn join_tags(tags: &crate::tag::TagSet) -> (r: String)
    ensures
        r@ == crate::text::join_seq(tags.spec_list(), seq![',']),
{
    let list = tags.to_vec();
    let ghost lv = list@.map_values(|t: crate::tag::Tag| t@);
    let mut v: Vec<char> = Vec::new();
    let mut i: usize = 0;
    while i < list.len()
        invariant
            i <= list@.len(),
            lv == list@.map_values(|t: crate::tag::Tag| t@),
            v@ == crate::text::join_seq(lv.take(i as int), seq![',']),
        decreases list@.len() - i,
    {
        if i > 0 {
            v.push(',');
        }
        push_str(&mut v, list[i].as_ref());
        proof {
            let t = lv.take(i + 1);
            assert(t.drop_last() =~= lv.take(i as int));
            assert(t.last() == list@[i as int]@);
            if i == 0 {
                assert(lv.take(0) =~= Seq::<Seq<char>>::empty());
            }
            assert(v@ =~= crate::text::join_seq(t, seq![',']));
        }
        i = i + 1;
    }
    assert(lv.take(list@.len() as int) =~= lv);
    from_chars(v.as_slice())
}

/// Each tag of each script with the script's latest major time: scripts in
/// order, each script's tags in the order they were added.
pub open spec fn tag_dates(s: Seq<ScriptInfo>) -> Seq<(Seq<char>, i64)>
    decreases s.len(),
{
    if s.len() == 0 {
        Seq::empty()
    } else {
        let x = s.last();
        tag_dates(s.drop_last()) + x.tags.spec_list().map_values(|t: Seq<char>| (t, x.spec_last_major_time()))
    }
}

/// The position of the tag `t` in `acc`.
pub open spec fn find_tag(acc: Seq<(Seq<char>, i64)>, t: Seq<char>) -> Option<int>
    decreases acc.len(),
{
    if acc.len() == 0 {
        None
    } else {
        match find_tag(acc.drop_last(), t) {
            Some(i) => Some(i),
            None => if acc.last().0 == t {
                Some(acc.len() - 1)
            } else {
                None
            },
        }
    }
}

/// Each tag once, in order of first appearance, with the latest of its dates.
pub open spec fn latest_dates(p: Seq<(Seq<char>, i64)>) -> Seq<(Seq<char>, i64)>
    decreases p.len(),
{
    if p.len() == 0 {
        p
    } else {
        let acc = latest_dates(p.drop_last());
        let (t, d) = p.last();
        match find_tag(acc, t) {
            Some(i) => acc.update(
                i,
                (
                    t,
                    if acc[i].1 < d {
                        d
                    } else {
                        acc[i].1
                    },
                ),
            ),
            None => acc.push((t, d)),
        }
    }
}

/// `s` with `x` placed after the leading entries dated no earlier than it.
pub open spec fn insert_dated(s: Seq<(Seq<char>, i64)>, x: (Seq<char>, i64)) -> Seq<(Seq<char>, i64)>
    decreases s.len(),
{
    if s.len() == 0 {
        seq![x]
    } else if s[0].1 >= x.1 {
        seq![s[0]] + insert_dated(s.drop_first(), x)
    } else {
        seq![x] + s
    }
}

/// The entries from the latest date, entries of the same date keeping their order.
pub open spec fn sort_dated(s: Seq<(Seq<char>, i64)>) -> Seq<(Seq<char>, i64)>
    decreases s.len(),
{
    if s.len() == 0 {
        s
    } else {
        insert_dated(sort_dated(s.drop_last()), s.last())
    }
}

/// The tags known to the repository: every tag of a script, once, from the one
/// whose script was changed last (tags of the same time in order of first
/// appearance).
pub open spec fn known_tags_order(all: Seq<ScriptInfo>) -> Seq<Seq<char>> {
    sort_dated(latest_dates(tag_dates(all))).map_values(|p: (Seq<char>, i64)| p.0)
}

proof fn lemma_find_tag(acc: Seq<(Seq<char>, i64)>, t: Seq<char>, j: int)
    requires
        0 <= j <= acc.len(),
        forall|k: int| 0 <= k < j ==> acc[k].0 != t,
    ensures
        j < acc.len() && acc[j].0 == t ==> find_tag(acc, t) == Some(j),
        j == acc.len() ==> find_tag(acc, t) is None,
    decreases acc.len(),
{
    if acc.len() > 0 {
        if j < acc.len() {
            lemma_find_tag(acc.drop_last(), t, j);
        } else {
            lemma_find_tag(acc.drop_last(), t, j - 1);
        }
    }
}

/// Takes the tag `t` dated `d` into `acc`.
fn add_dated(acc: &mut Vec<(Tag, i64)>, t: &Tag, d: i64)
    ensures
        final(acc)@.map_values(|p: (Tag, i64)| (p.0@, p.1)) == ({
            let a = old(acc)@.map_values(|p: (Tag, i64)| (p.0@, p.1));
            match find_tag(a, t@) {
                Some(i) => a.update(
                    i,
                    (
                        t@,
                        if a[i].1 < d {
                            d
                        } else {
                            a[i].1
                        },
                    ),
                ),
                None => a.push((t@, d)),
            }
        }),
{
    let ghost a = acc@.map_values(|p: (Tag, i64)| (p.0@, p.1));
    let mut k: usize = 0;
    while k < acc.len()
        invariant
            a == acc@.map_values(|p: (Tag, i64)| (p.0@, p.1)),
            a == old(acc)@.map_values(|p: (Tag, i64)| (p.0@, p.1)),
            k <= acc@.len(),
            forall|m: int| 0 <= m < k ==> a[m].0 != t@,
        decreases acc@.len() - k,
    {
        if str_eq(acc[k].0.as_ref(), t.as_ref()) {
            proof {
                lemma_find_tag(a, t@, k as int);
            }
            let old_d = acc[k].1;
            let nd = if old_d < d {
                d
            } else {
                old_d
            };
            let name = Tag(acc[k].0 .0.clone());
            assert(a[k as int].0 == t@);
            assert(find_tag(a, t@) == Some(k as int));
            assert(a[k as int].1 == old_d);
            assert(name@ == t@);
            acc.set(k, (name, nd));
            proof {
                assert(acc@.map_values(|p: (Tag, i64)| (p.0@, p.1)) =~= a.update(k as int, (t@, nd)));
            }
            return;
        }
        k = k + 1;
    }
    proof {
        lemma_find_tag(a, t@, acc@.len() as int);
    }
    acc.push((Tag(t.0.clone()), d));
    assert(acc@.map_values(|p: (Tag, i64)| (p.0@, p.1)) =~= a.push((t@, d)));
}

/// The tags known to the repository, as `known_tags_order` orders them.
pub fn known_tags(repo: &ScriptRepo) -> (r: Vec<Tag>)
    ensures
        r@.map_values(|t: Tag| t@) == known_tags_order(
            by_visibility(repo.spec_shown(), repo.spec_hidden(), Visibility::All),
        ),
{
    let all = repo.iter_by_vis(Visibility::All);
    let ghost vis = by_visibility(repo.spec_shown(), repo.spec_hidden(), Visibility::All);
    let mut acc: Vec<(Tag, i64)> = Vec::new();
    let mut i: usize = 0;
    assert(vis.take(0) =~= Seq::<ScriptInfo>::empty());
    assert(acc@.map_values(|p: (Tag, i64)| (p.0@, p.1)) =~= Seq::<(Seq<char>, i64)>::empty());
    while i < all.len()
        invariant
            all@.len() == vis.len(),
            forall|k: int| 0 <= k < all@.len() ==> *all@[k] == vis[k],
            i <= all@.len(),
            acc@.map_values(|p: (Tag, i64)| (p.0@, p.1)) == latest_dates(tag_dates(vis.take(i as int))),
        decreases all@.len() - i,
    {
        let x = all[i];
        let date = x.last_major_time();
        let tags = x.tags.to_vec();
        let ghost head = tag_dates(vis.take(i as int));
        let ghost lst = tags@.map_values(|t: Tag| (t@, date));
        proof {
            assert(vis.take(i + 1).drop_last() =~= vis.take(i as int));
            assert(vis.take(i + 1).last() == *x);
            assert(lst =~= x.tags.spec_list().map_values(|t: Seq<char>| (t, x.spec_last_major_time())));
            assert(tag_dates(vis.take(i + 1)) == head + lst);
            assert(head + lst.take(0) =~= head);
        }
        let mut j: usize = 0;
        while j < tags.len()
            invariant
                j <= tags@.len(),
                lst == tags@.map_values(|t: Tag| (t@, date)),
                acc@.map_values(|p: (Tag, i64)| (p.0@, p.1)) == latest_dates(head + lst.take(j as int)),
            decreases tags@.len() - j,
        {
            add_dated(&mut acc, &tags[j], date);
            proof {
                let p = head + lst.take(j + 1);
                assert(p.drop_last() =~= head + lst.take(j as int));
                assert(p.last() == (tags@[j as int]@, date));
            }
            j = j + 1;
        }
        assert(lst.take(tags@.len() as int) =~= lst);
        i = i + 1;
    }
    assert(vis.take(all@.len() as int) =~= vis);
    let ghost dated = latest_dates(tag_dates(vis));
    let mut sorted: Vec<(Tag, i64)> = Vec::new();
    let mut i: usize = 0;
    assert(dated.take(0) =~= Seq::<(Seq<char>, i64)>::empty());
    while i < acc.len()
        invariant
            acc@.map_values(|p: (Tag, i64)| (p.0@, p.1)) == dated,
            i <= acc@.len(),
            sorted@.map_values(|p: (Tag, i64)| (p.0@, p.1)) == sort_dated(dated.take(i as int)),
        decreases acc@.len() - i,
    {
        let d = acc[i].1;
        let ghost xv = (acc@[i as int].0@, d);
        let ghost s = sort_dated(dated.take(i as int));
        assert(dated[i as int] == xv);
        let mut p: usize = 0;
        assert(s.skip(0) =~= s);
        assert(s.take(0) + insert_dated(s.skip(0), xv) =~= insert_dated(s, xv));
        while p < sorted.len() && sorted[p].1 >= d
            invariant
                sorted@.map_values(|q: (Tag, i64)| (q.0@, q.1)) == s,
                p <= s.len(),
                xv.1 == d,
                insert_dated(s, xv) == s.take(p as int) + insert_dated(s.skip(p as int), xv),
            decreases s.len() - p,
        {
            assert(s[p as int].1 == sorted@[p as int].1);
            assert(s.skip(p as int)[0] == s[p as int]);
            assert(s.skip(p as int).drop_first() =~= s.skip(p + 1));
            assert(s.take(p + 1) =~= s.take(p as int).push(s[p as int]));
            assert(s.take(p as int) + (seq![s[p as int]] + insert_dated(s.skip(p + 1), xv)) =~= s.take(p + 1)
                + insert_dated(s.skip(p + 1), xv));
            p = p + 1;
        }
        proof {
            if p < s.len() {
                assert(s[p as int].1 == sorted@[p as int].1);
                assert(s.skip(p as int)[0] == s[p as int]);
                assert(insert_dated(s.skip(p as int), xv) == seq![xv] + s.skip(p as int));
            } else {
                assert(s.skip(p as int) =~= Seq::<(Seq<char>, i64)>::empty());
            }
        }
        let ghost before = sorted@;
        let name = Tag(acc[i].0 .0.clone());
        sorted.insert(p, (name, d));
        proof {
            assert(dated.take(i + 1).drop_last() =~= dated.take(i as int));
            assert(dated.take(i + 1).last() == xv);
            assert(sorted@.map_values(|q: (Tag, i64)| (q.0@, q.1)) =~= s.take(p as int) + (seq![xv] + s.skip(
                p as int,
            )));
        }
        i = i + 1;
    }
    assert(dated.take(acc@.len() as int) =~= dated);
    let mut out: Vec<Tag> = Vec::new();
    let mut i: usize = 0;
    while i < sorted.len()
        invariant
            i <= sorted@.len(),
            out@.map_values(|t: Tag| t@) == sorted@.map_values(|p: (Tag, i64)| (p.0@, p.1)).take(i as int).map_values(
                |p: (Seq<char>, i64)| p.0,
            ),
        decreases sorted@.len() - i,
    {
        let tg = Tag(sorted[i].0 .0.clone());
        assert(tg@ == sorted@[i as int].0@);
        let ghost before = out@;
        out.push(tg);
        proof {
            let sv = sorted@.map_values(|p: (Tag, i64)| (p.0@, p.1));
            assert(sv.take(i + 1) =~= sv.take(i as int).push(sv[i as int]));
            assert(out@.map_values(|t: Tag| t@) =~= before.map_values(|t: Tag| t@).push(tg@));
            assert(sv.take(i + 1).map_values(|p: (Seq<char>, i64)| p.0) =~= sv.take(i as int).map_values(
                |p: (Seq<char>, i64)| p.0,
            ).push(sv[i as int].0));
            assert(out@.map_values(|t: Tag| t@) =~= sv.take(i + 1).map_values(|p: (Seq<char>, i64)| p.0));
        }
        i = i + 1;
    }
    proof {
        let sv = sorted@.map_values(|p: (Tag, i64)| (p.0@, p.1));
        assert(sv.take(sorted@.len() as int) =~= sv);
    }
    out
}

/// What removing a script does: forget it (and delete its file, when it was
/// found), and/or hide it under the tag `remove`.
#[derive(Debug)]
pub struct RmPlan {
    pub purge: Option<Option<String>>,
    pub hide: bool,
}

/// Removing a script, given whether a purge was asked for, whether the script is
/// anonymous, and the outcome of looking for its file: a purge (or an anonymous
/// script) is forgotten with its file when that was found; any other script is
/// hidden, and forgotten as well when its file is not there.
pub fn rm_plan(purge: bool, anonymous: bool, file: crate::error::Result<String>) -> (r: RmPlan)
    ensures
        if purge || anonymous {
            !r.hide && r.purge == Some(
                match file {
                    Ok(p) => Some(p),
                    Err(_) => None::<String>,
                },
            )
        } else {
            r.hide && r.purge == if file matches Err(crate::error::Error::PathNotFound(_)) {
                Some(None::<String>)
            } else {
                None
            }
        },
{
    if purge || anonymous {
        let p = match file {
            Ok(p) => Some(p),
            Err(_) => None,
        };
        RmPlan { purge: Some(p), hide: false }
    } else {
        let forget = match file {
            Err(crate::error::Error::PathNotFound(_)) => true,
            _ => false,
        };
        RmPlan {
            purge: if forget {
                Some(None)
            } else {
                None
            },
            hide: true,
        }
    }
}

} // verus!
