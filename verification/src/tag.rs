//! Tags of scripts and the selectors that filter scripts by their tags and type.
//!
//! A selector is written as a comma-separated list of controls. A control is a tag
//! name or `@type`, preceded by `^` to deny instead of allow and followed by `!` to
//! make it mandatory. A selector that starts with `+` is appended to the previous
//! ones instead of replacing them.
use crate::error::{DisplayError, DisplayResult, FormatCode, Parsed};
use crate::script_type::{agrees, checked_name, is_format_err, ScriptType};
use crate::text::{
    ends_with, free_of, from_chars, join_seq, lemma_join_first_char, lemma_split_join, push_all,
    push_str, split_char, split_seq, str_eq,
    sub_string, to_chars,
};
use crate::util::{illegal_name, is_illegal_name};
use vstd::prelude::*;

verus! {

/// A tag of a script.
#[derive(Debug)]
pub struct Tag(pub String);

impl Clone for Tag {
    fn clone(&self) -> (r: Tag)
        ensures
            r@ == self@,
    {
        Tag(self.0.clone())
    }
}

impl View for Tag {
    type V = Seq<char>;

    open spec fn view(&self) -> Seq<char> {
        self.0@
    }
}

/// The tag that every script has.
pub open spec fn all_tag() -> Seq<char> {
    seq!['a', 'l', 'l']
}

impl Tag {
    /// The special tag `all`, which matches every script.
    pub fn match_all(&self) -> (r: bool)
        ensures
            r == (self@ == all_tag()),
    {
        let v = to_chars(self.0.as_str());
        let a = vec!['a', 'l', 'l'];
        assert(a@ =~= all_tag());
        crate::text::chars_eq(v.as_slice(), a.as_slice())
    }

    pub fn new_unchecked(s: String) -> (r: Tag)
        ensures
            r@ == s@,
    {
        Tag(s)
    }

    pub fn as_ref(&self) -> (r: &str)
        ensures
            r@ == self@,
    {
        self.0.as_str()
    }

    /// Parses a tag name, refusing illegal names.
    pub fn from_str(s: &str) -> (r: DisplayResult<Tag>)
        ensures
            agrees(r, checked_name(s@, FormatCode::Tag)),
    {
        if illegal_name(s) {
            return FormatCode::Tag.to_display_res(s.to_owned());
        }
        Ok(Tag(s.to_owned()))
    }
}

/// A set of tags.
#[derive(Debug)]
pub struct TagSet(Vec<Tag>);

impl Clone for TagSet {
    fn clone(&self) -> (r: TagSet)
        ensures
            r@ == self@,
            r.spec_list() == self.spec_list(),
    {
        let v = self.to_vec();
        assert forall|i: int, j: int| 0 <= i < j < v@.len() implies #[trigger] v@[i]@ != #[trigger] v@[j]@ by {
            assert(v@.map_values(|t: Tag| t@)[i] == v@[i]@);
            assert(v@.map_values(|t: Tag| t@)[j] == v@[j]@);
        }
        let r = TagSet(v);
        assert(r.spec_list() =~= self.spec_list());
        assert(r@ =~= self@) by {
            assert forall|x: Seq<char>| r@.contains(x) implies self@.contains(x) by {
                let k = choose|k: int| 0 <= k < r.0@.len() && #[trigger] r.0@[k]@ == x;
                assert(r.spec_list()[k] == x);
            }
        }
        r
    }
}

impl View for TagSet {
    type V = Set<Seq<char>>;

    closed spec fn view(&self) -> Set<Seq<char>> {
        Set::new(|x: Seq<char>| exists|i: int| 0 <= i < self.0@.len() && #[trigger] self.0@[i]@ == x)
    }
}

impl TagSet {
    /// No tag is held twice.
    #[verifier::type_invariant]
    spec fn wf(&self) -> bool {
        forall|i: int, j: int|
            0 <= i < j < self.0@.len() ==> #[trigger] self.0@[i]@ != #[trigger] self.0@[j]@
    }

    pub fn new() -> (r: TagSet)
        ensures
            r@ == Set::<Seq<char>>::empty(),
    {
        let r = TagSet(Vec::new());
        assert(r@ =~= Set::<Seq<char>>::empty());
        r
    }

    pub fn contains(&self, t: &Tag) -> (r: bool)
        ensures
            r == self@.contains(t@),
    {
        let mut i: usize = 0;
        while i < self.0.len()
            invariant
                i <= self.0@.len(),
                forall|j: int| 0 <= j < i ==> #[trigger] self.0@[j]@ != t@,
            decreases self.0@.len() - i,
        {
            if str_eq(self.0[i].0.as_str(), t.0.as_str()) {
                assert(self.0@[i as int]@ == t@);
                assert(self@.contains(t@));
                return true;
            }
            i = i + 1;
        }
        proof {
            if self@.contains(t@) {
                let k = choose|k: int| 0 <= k < self.0@.len() && #[trigger] self.0@[k]@ == t@;
                assert(self.0@[k]@ == t@);
            }
        }
        false
    }

    /// Adds a tag unless it is already there.
    pub fn insert(&mut self, t: Tag)
        ensures
            final(self)@ == old(self)@.insert(t@),
    {
        proof { use_type_invariant(&*self); }
        if !self.contains(&t) {
            let ghost old_v = self.0@;
            let mut v: Vec<Tag> = Vec::new();
            std::mem::swap(&mut v, &mut self.0);
            v.push(t);
            assert forall|i: int, j: int| 0 <= i < j < v@.len() implies #[trigger] v@[i]@ != #[trigger] v@[j]@ by {
                if j == old_v.len() {
                    assert(v@[i] == old_v[i]);
                    if old_v[i]@ == t@ {
                        assert(old(self)@.contains(t@));
                    }
                } else {
                    assert(v@[i] == old_v[i] && v@[j] == old_v[j]);
                }
            }
            self.0 = v;
            assert(self@ =~= old(self)@.insert(t@)) by {
                assert(self.0@[old_v.len() as int]@ == t@);
                assert forall|x: Seq<char>| old(self)@.insert(t@).contains(x) implies self@.contains(x) by {
                    if x != t@ {
                        let k = choose|k: int| 0 <= k < old_v.len() && #[trigger] old_v[k]@ == x;
                        assert(self.0@[k]@ == x);
                    }
                }
                assert forall|x: Seq<char>| self@.contains(x) implies old(self)@.insert(t@).contains(x) by {
                    let k = choose|k: int| 0 <= k < self.0@.len() && #[trigger] self.0@[k]@ == x;
                    if k < old_v.len() {
                        assert(old_v[k]@ == x);
                    }
                }
            }
        } else {
            assert(self@ =~= old(self)@.insert(t@));
        }
    }

    /// Position of a tag, if it is there.
    fn position(&self, t: &Tag) -> (r: Option<usize>)
        ensures
            match r {
                Some(k) => k < self.0@.len() && self.0@[k as int]@ == t@,
                None => !self@.contains(t@),
            },
    {
        let mut i: usize = 0;
        while i < self.0.len()
            invariant
                i <= self.0@.len(),
                forall|j: int| 0 <= j < i ==> #[trigger] self.0@[j]@ != t@,
            decreases self.0@.len() - i,
        {
            if str_eq(self.0[i].0.as_str(), t.0.as_str()) {
                return Some(i);
            }
            i = i + 1;
        }
        proof {
            if self@.contains(t@) {
                let k = choose|k: int| 0 <= k < self.0@.len() && #[trigger] self.0@[k]@ == t@;
                assert(self.0@[k]@ == t@);
            }
        }
        None
    }

    /// Removes a tag if it is there.
    pub fn remove(&mut self, t: &Tag)
        ensures
            final(self)@ == old(self)@.remove(t@),
    {
        proof { use_type_invariant(&*self); }
        match self.position(t) {
            None => {
                assert(self@ =~= old(self)@.remove(t@));
            },
            Some(k) => {
                let ghost old_v = self.0@;
                let mut v: Vec<Tag> = Vec::new();
                std::mem::swap(&mut v, &mut self.0);
                v.remove(k);
                assert(v@ == old_v.remove(k as int));
                assert forall|i: int, j: int|
                    0 <= i < j < v@.len() implies #[trigger] v@[i]@ != #[trigger] v@[j]@ by {
                    let i2 = if i < k { i } else { i + 1 };
                    let j2 = if j < k { j } else { j + 1 };
                    assert(v@[i] == old_v[i2]);
                    assert(v@[j] == old_v[j2]);
                }
                self.0 = v;
                assert(self@ =~= old(self)@.remove(t@)) by {
                    assert forall|x: Seq<char>| self@.contains(x) implies old(self)@.remove(t@).contains(x) by {
                        let a = choose|a: int| 0 <= a < self.0@.len() && #[trigger] self.0@[a]@ == x;
                        let a2 = if a < k { a } else { a + 1 };
                        assert(self.0@[a] == old_v[a2]);
                        assert(old_v[a2]@ != old_v[k as int]@);
                    }
                    assert forall|x: Seq<char>| old(self)@.remove(t@).contains(x) implies self@.contains(x) by {
                        let b = choose|b: int| 0 <= b < old_v.len() && #[trigger] old_v[b]@ == x;
                        assert(b != k);
                        let b2 = if b < k { b } else { b - 1 };
                        assert(self.0@[b2] == old_v[b]);
                    }
                }
            },
        }
    }

    /// Removes every tag.
    pub fn clear(&mut self)
        ensures
            final(self)@ == Set::<Seq<char>>::empty(),
    {
        self.0 = Vec::new();
        assert(self@ =~= Set::<Seq<char>>::empty());
    }

    /// The tags' names, in the order they were added.
    pub closed spec fn spec_list(&self) -> Seq<Seq<char>> {
        self.0@.map_values(|t: Tag| t@)
    }

    /// The tags, in the order they were added.
    pub fn to_vec(&self) -> (r: Vec<Tag>)
        ensures
            forall|x: Seq<char>|
                self@.contains(x) <==> exists|i: int| 0 <= i < r@.len() && #[trigger] r@[i]@ == x,
            r@.map_values(|t: Tag| t@) == self.spec_list(),
            self.spec_list().no_duplicates(),
    {
        proof { use_type_invariant(self); }
        let mut r: Vec<Tag> = Vec::new();
        let mut i: usize = 0;
        while i < self.0.len()
            invariant
                i <= self.0@.len(),
                r@.len() == i,
                forall|j: int| 0 <= j < i ==> (#[trigger] r@[j])@ == self.0@[j]@,
            decreases self.0@.len() - i,
        {
            r.push(self.0[i].clone());
            i = i + 1;
        }
        proof {
            assert(r@.map_values(|t: Tag| t@) =~= self.spec_list());
            assert forall|x: Seq<char>| self@.contains(x) implies exists|i: int| 0 <= i < r@.len() && #[trigger] r@[i]@ == x by {
                let k = choose|k: int| 0 <= k < self.0@.len() && #[trigger] self.0@[k]@ == x;
                assert(r@[k]@ == x);
            }
            assert forall|x: Seq<char>| (exists|i: int| 0 <= i < r@.len() && #[trigger] r@[i]@ == x) implies self@.contains(x) by {
                let k = choose|k: int| 0 <= k < r@.len() && #[trigger] r@[k]@ == x;
                assert(self.0@[k]@ == x);
            }
        }
        r
    }
}

/// View of a tag or a type filter: `(is_type, name)`.
pub type TagOrTypeV = (bool, Seq<char>);

/// View of a control: `(allow, mandatory, target)`.
pub type ControlV = (bool, bool, TagOrTypeV);

/// Filters on a tag, or on the type when written `@type`.
#[derive(Debug)]
pub enum TagOrType {
    Type(ScriptType),
    Tag(Tag),
}

impl View for TagOrType {
    type V = TagOrTypeV;

    open spec fn view(&self) -> TagOrTypeV {
        match self {
            TagOrType::Type(t) => (true, t@),
            TagOrType::Tag(t) => (false, t@),
        }
    }
}

/// How `TagOrType::from_str` reads `s`.
pub open spec fn spec_tag_or_type(s: Seq<char>) -> Parsed<TagOrTypeV> {
    if s.len() > 0 && s[0] == '@' {
        match checked_name(s.skip(1), FormatCode::ScriptType) {
            Ok(n) => Ok((true, n)),
            Err(e) => Err(e),
        }
    } else {
        match checked_name(s, FormatCode::Tag) {
            Ok(n) => Ok((false, n)),
            Err(e) => Err(e),
        }
    }
}

/// Text of a tag or type filter.
pub open spec fn tag_or_type_text(t: TagOrTypeV) -> Seq<char> {
    if t.0 {
        seq!['@'] + t.1
    } else {
        t.1
    }
}

impl TagOrType {
    pub fn from_str(s: &str) -> (r: DisplayResult<TagOrType>)
        ensures
            agrees(r, spec_tag_or_type(s@)),
    {
        let v = to_chars(s);
        if v.len() > 0 && v[0] == '@' {
            let rest = sub_string(v.as_slice(), 1, v.len());
            assert(rest@ =~= s@.skip(1));
            let t = ScriptType::from_str(rest.as_str())?;
            Ok(TagOrType::Type(t))
        } else {
            let t = Tag::from_str(s)?;
            Ok(TagOrType::Tag(t))
        }
    }

    pub fn to_string(&self) -> (r: String)
        ensures
            r@ == tag_or_type_text(self@),
    {
        let mut v: Vec<char> = Vec::new();
        match self {
            TagOrType::Type(t) => {
                v.push('@');
                push_str(&mut v, t.as_ref());
            },
            TagOrType::Tag(t) => {
                push_str(&mut v, t.as_ref());
            },
        }
        assert(v@ =~= tag_or_type_text(self@));
        from_chars(v.as_slice())
    }
}

/// One filter of a selector.
#[derive(Debug)]
pub struct TagControl {
    pub allow: bool,
    pub mandatory: bool,
    pub tag: TagOrType,
}

impl View for TagControl {
    type V = ControlV;

    open spec fn view(&self) -> ControlV {
        (self.allow, self.mandatory, self.tag@)
    }
}

/// How `TagControl::from_str` reads `s`: a leading `^` denies, a trailing `!` makes
/// the control mandatory.
pub open spec fn spec_control(s: Seq<char>) -> Parsed<ControlV> {
    let allow = !(s.len() > 0 && s[0] == '^');
    let s1 = if allow {
        s
    } else {
        s.skip(1)
    };
    let mandatory = s1.len() > 0 && s1.last() == '!';
    let s2 = if mandatory {
        s1.drop_last()
    } else {
        s1
    };
    match spec_tag_or_type(s2) {
        Ok(t) => Ok((allow, mandatory, t)),
        Err(e) => Err(e),
    }
}

/// Text of a control.
pub open spec fn control_text(c: ControlV) -> Seq<char> {
    (if c.0 {
        Seq::<char>::empty()
    } else {
        seq!['^']
    }) + tag_or_type_text(c.2) + (if c.1 {
        seq!['!']
    } else {
        Seq::<char>::empty()
    })
}

impl TagControl {
    pub fn from_str(s: &str) -> (r: DisplayResult<TagControl>)
        ensures
            agrees(r, spec_control(s@)),
    {
        let v = to_chars(s);
        let allow = !(v.len() > 0 && v[0] == '^');
        let v1 = if allow {
            v
        } else {
            crate::text::sub_chars(v.as_slice(), 1, v.len())
        };
        assert(v1@ =~= (if allow {
            s@
        } else {
            s@.skip(1)
        }));
        let mandatory = v1.len() > 0 && v1[v1.len() - 1] == '!';
        let v2 = if mandatory {
            crate::text::sub_chars(v1.as_slice(), 0, v1.len() - 1)
        } else {
            v1
        };
        assert(mandatory ==> v2@ =~= v1@.drop_last());
        let txt = from_chars(v2.as_slice());
        let tag = TagOrType::from_str(txt.as_str())?;
        Ok(TagControl { allow, mandatory, tag })
    }

    pub fn to_string(&self) -> (r: String)
        ensures
            r@ == control_text(self@),
    {
        let mut v: Vec<char> = Vec::new();
        if !self.allow {
            v.push('^');
        }
        let t = self.tag.to_string();
        push_str(&mut v, t.as_str());
        if self.mandatory {
            v.push('!');
        }
        assert(v@ =~= control_text(self@));
        from_chars(v.as_slice())
    }
}

/// How a list of control texts is read; the first failing one is reported.
pub open spec fn spec_controls(parts: Seq<Seq<char>>) -> Parsed<Seq<ControlV>>
    decreases parts.len(),
{
    if parts.len() == 0 {
        Ok(Seq::empty())
    } else {
        match spec_control(parts[0]) {
            Err(e) => Err(e),
            Ok(c) => match spec_controls(parts.drop_first()) {
                Err(e) => Err(e),
                Ok(cs) => Ok(seq![c] + cs),
            },
        }
    }
}

/// How `TagGroup::from_str` reads `s`: empty text gives no control, otherwise the
/// comma-separated controls.
pub open spec fn spec_group(s: Seq<char>) -> Parsed<Seq<ControlV>> {
    if s.len() == 0 {
        Ok(Seq::empty())
    } else {
        spec_controls(split_seq(s, seq![',']))
    }
}

/// Text of a list of controls.
pub open spec fn group_text(g: Seq<ControlV>) -> Seq<char> {
    join_seq(g.map_values(|c: ControlV| control_text(c)), seq![','])
}

/// Prepends already parsed controls to the outcome of the rest.
pub open spec fn prepend_controls(done: Seq<ControlV>, rest: Parsed<Seq<ControlV>>) -> Parsed<
    Seq<ControlV>,
> {
    match rest {
        Ok(cs) => Ok(done + cs),
        Err(e) => Err(e),
    }
}

/// A comma-separated list of controls.
#[derive(Debug)]
pub struct TagGroup(pub Vec<TagControl>);

impl View for TagGroup {
    type V = Seq<ControlV>;

    open spec fn view(&self) -> Seq<ControlV> {
        self.0@.map_values(|c: TagControl| c@)
    }
}

/// Outcome of matching one selector against a script.
#[derive(Debug, Clone, Copy, PartialEq, Eq, Structural)]
pub enum SelectResult {
    NoHit,
    MandatoryFalse,
    Normal(bool),
}

impl SelectResult {
    pub fn is_true(&self) -> (r: bool)
        ensures
            r == (*self == SelectResult::Normal(true)),
    {
        match self {
            SelectResult::Normal(b) => *b,
            _ => false,
        }
    }
}

/// Whether the control's target is met by a script with `tags` and type `ty`.
pub open spec fn control_hits(c: ControlV, tags: Set<Seq<char>>, ty: Seq<char>) -> bool {
    if c.2.0 {
        ty == c.2.1
    } else {
        c.2.1 == all_tag() || tags.contains(c.2.1)
    }
}

/// Outcome of a list of controls: a mandatory control that does not hold its
/// promise (an allowed target missing, a denied one present) fails the script;
/// otherwise the last control that hits decides, and none hitting gives `None`.
pub open spec fn spec_select(g: Seq<ControlV>, tags: Set<Seq<char>>, ty: Seq<char>) -> SelectResult
    decreases g.len(),
{
    if g.len() == 0 {
        SelectResult::NoHit
    } else {
        let prev = spec_select(g.drop_last(), tags, ty);
        let c = g.last();
        let hit = control_hits(c, tags, ty);
        if prev == SelectResult::MandatoryFalse {
            SelectResult::MandatoryFalse
        } else if c.1 && c.0 != hit {
            SelectResult::MandatoryFalse
        } else if hit {
            SelectResult::Normal(c.0)
        } else {
            prev
        }
    }
}

/// The last control that hits decides: once a list of controls has not failed,
/// appending a control that is not mandatory gives that control's verdict when
/// it hits the script, and leaves the outcome as it was when it does not.
pub proof fn law_last_hit_decides(g: Seq<ControlV>, c: ControlV, tags: Set<Seq<char>>, ty: Seq<char>)
    requires
        !c.1,
        spec_select(g, tags, ty) != SelectResult::MandatoryFalse,
    ensures
        control_hits(c, tags, ty) ==> spec_select(g.push(c), tags, ty) == SelectResult::Normal(c.0),
        !control_hits(c, tags, ty) ==> spec_select(g.push(c), tags, ty) == spec_select(g, tags, ty),
{
    assert(g.push(c).drop_last() =~= g);
}

/// A failed list of controls stays failed whatever is appended; a mandatory
/// control fails the script when it does not keep its promise (an allowed target
/// missing, a denied one present), and a kept mandatory allow selects it.
pub proof fn law_mandatory_fails(g: Seq<ControlV>, c: ControlV, tags: Set<Seq<char>>, ty: Seq<char>)
    ensures
        spec_select(g, tags, ty) == SelectResult::MandatoryFalse ==> spec_select(g.push(c), tags, ty)
            == SelectResult::MandatoryFalse,
        c.1 && c.0 != control_hits(c, tags, ty) ==> spec_select(g.push(c), tags, ty)
            == SelectResult::MandatoryFalse,
        spec_select(g, tags, ty) != SelectResult::MandatoryFalse && c.1 && c.0 && control_hits(c, tags, ty)
            ==> spec_select(g.push(c), tags, ty) == SelectResult::Normal(true),
{
    assert(g.push(c).drop_last() =~= g);
}

impl TagGroup {
    pub fn from_str(s: &str) -> (r: DisplayResult<TagGroup>)
        ensures
            agrees(r, spec_group(s@)),
    {
        let mut tags: Vec<TagControl> = Vec::new();
        let v = to_chars(s);
        if v.len() == 0 {
            let r = TagGroup(tags);
            assert(r@ =~= Seq::<ControlV>::empty());
            return Ok(r);
        }
        let parts = split_char(v.as_slice(), ',');
        let ghost ps = parts.deep_view();
        let mut i: usize = 0;
        assert(ps.skip(0) =~= ps);
        assert(tags@.map_values(|c: TagControl| c@) =~= Seq::<ControlV>::empty());
        proof {
            match spec_controls(ps) {
                Ok(cs) => {
                    assert(Seq::<ControlV>::empty() + cs =~= cs);
                },
                Err(_) => {},
            }
        }
        while i < parts.len()
            invariant
                ps == parts.deep_view(),
                ps.len() == parts@.len(),
                i <= ps.len(),
                ps == split_seq(s@, seq![',']),
                s@.len() > 0,
                spec_group(s@) == prepend_controls(
                    tags@.map_values(|c: TagControl| c@),
                    spec_controls(ps.skip(i as int)),
                ),
            decreases ps.len() - i,
        {
            let piece = from_chars(parts[i].as_slice());
            assert(piece@ == ps[i as int]);
            assert(ps.skip(i as int).drop_first() =~= ps.skip(i + 1));
            assert(ps.skip(i as int)[0] == ps[i as int]);
            let ghost old_tags = tags@.map_values(|c: TagControl| c@);
            match TagControl::from_str(piece.as_str()) {
                Ok(c) => {
                    tags.push(c);
                    assert(tags@.map_values(|c: TagControl| c@) =~= old_tags + seq![c@]);
                    assert(old_tags + seq![c@] + spec_controls(ps.skip(i + 1))->Ok_0 =~= old_tags + (
                    seq![c@] + spec_controls(ps.skip(i + 1))->Ok_0));
                },
                Err(e) => {
                    return Err(e);
                },
            }
            i = i + 1;
        }
        assert(ps.skip(i as int) =~= Seq::<Seq<char>>::empty());
        let r = TagGroup(tags);
        assert(r@ =~= tags@.map_values(|c: TagControl| c@));
        Ok(r)
    }

    pub fn to_string(&self) -> (r: String)
        ensures
            r@ == group_text(self@),
    {
        let mut parts: Vec<Vec<char>> = Vec::new();
        let mut i: usize = 0;
        let ghost texts = self@.map_values(|c: ControlV| control_text(c));
        while i < self.0.len()
            invariant
                texts == self@.map_values(|c: ControlV| control_text(c)),
                i <= self.0@.len(),
                parts.deep_view() == texts.take(i as int),
            decreases self.0@.len() - i,
        {
            let t = self.0[i].to_string();
            let c = to_chars(t.as_str());
            let ghost old_parts = parts.deep_view();
            assert(c.deep_view() =~= c@);
            assert(texts[i as int] == control_text(self.0@[i as int]@));
            parts.push(c);
            assert(parts.deep_view() =~= old_parts.push(c@));
            assert(parts.deep_view() =~= texts.take(i + 1));
            i = i + 1;
        }
        assert(texts.take(self.0@.len() as int) =~= texts);
        let comma = vec![','];
        assert(comma@ =~= seq![',']);
        let j = crate::text::join(&parts, comma.as_slice());
        from_chars(j.as_slice())
    }

    /// Matches the controls against a script with `tags` and type `ty`.
    pub fn select(&self, tags: &TagSet, ty: &ScriptType) -> (r: SelectResult)
        ensures
            r == spec_select(self@, tags@, ty@),
    {
        let mut pass = SelectResult::NoHit;
        let mut i: usize = 0;
        while i < self.0.len()
            invariant
                i <= self.0@.len(),
                pass != SelectResult::MandatoryFalse,
                pass == spec_select(self@.take(i as int), tags@, ty@),
            decreases self.0@.len() - i,
        {
            let ctrl = &self.0[i];
            let hit = match &ctrl.tag {
                TagOrType::Type(t) => str_eq(ty.as_ref(), t.as_ref()),
                TagOrType::Tag(t) => t.match_all() || tags.contains(t),
            };
            assert(self@.take(i + 1).drop_last() =~= self@.take(i as int));
            assert(self@.take(i + 1).last() == ctrl@);
            assert(hit == control_hits(ctrl@, tags@, ty@));
            if ctrl.mandatory {
                if ctrl.allow {
                    if !hit {
                        assert(self@.take(self.0@.len() as int) =~= self@);
                        proof {
                            lemma_select_stays_failed(self@, i as int + 1, tags@, ty@);
                        }
                        return SelectResult::MandatoryFalse;
                    }
                } else {
                    if hit {
                        assert(self@.take(self.0@.len() as int) =~= self@);
                        proof {
                            lemma_select_stays_failed(self@, i as int + 1, tags@, ty@);
                        }
                        return SelectResult::MandatoryFalse;
                    }
                }
            }
            if hit {
                pass = SelectResult::Normal(ctrl.allow);
            }
            i = i + 1;
        }
        assert(self@.take(self.0@.len() as int) =~= self@);
        pass
    }
}

/// Once a mandatory control fails, the later controls change nothing.
pub proof fn lemma_select_stays_failed(g: Seq<ControlV>, k: int, tags: Set<Seq<char>>, ty: Seq<char>)
    requires
        0 <= k <= g.len(),
        spec_select(g.take(k), tags, ty) == SelectResult::MandatoryFalse,
    ensures
        spec_select(g, tags, ty) == SelectResult::MandatoryFalse,
    decreases g.len() - k,
{
    if k < g.len() {
        assert(g.take(k + 1).drop_last() =~= g.take(k));
        lemma_select_stays_failed(g, k + 1, tags, ty);
    } else {
        assert(g.take(k) =~= g);
    }
}

/// A list of controls, appended to the previous selectors when `append` holds.
#[derive(Debug)]
pub struct TagSelector {
    pub tags: TagGroup,
    pub append: bool,
}

impl View for TagSelector {
    type V = (bool, Seq<ControlV>);

    open spec fn view(&self) -> (bool, Seq<ControlV>) {
        (self.append, self.tags@)
    }
}

/// How `TagSelector::from_str` reads `s`: a leading `+` appends.
pub open spec fn spec_selector(s: Seq<char>) -> Parsed<(bool, Seq<ControlV>)> {
    let append = s.len() > 0 && s[0] == '+';
    let rest = if append {
        s.skip(1)
    } else {
        s
    };
    match spec_group(rest) {
        Ok(g) => Ok((append, g)),
        Err(e) => Err(e),
    }
}

/// Text of a selector.
pub open spec fn selector_text(v: (bool, Seq<ControlV>)) -> Seq<char> {
    (if v.0 {
        seq!['+']
    } else {
        Seq::<char>::empty()
    }) + group_text(v.1)
}

/// Set of allowed tags after applying the controls in order: an allowed tag is
/// added, a denied one removed; `all` allowed changes nothing, `all` denied empties
/// the set; type controls are skipped.
pub open spec fn apply_controls(set: Set<Seq<char>>, g: Seq<ControlV>) -> Set<Seq<char>>
    decreases g.len(),
{
    if g.len() == 0 {
        set
    } else {
        let prev = apply_controls(set, g.drop_last());
        let c = g.last();
        if c.2.0 {
            prev
        } else if c.0 {
            if c.2.1 == all_tag() {
                prev
            } else {
                prev.insert(c.2.1)
            }
        } else {
            if c.2.1 == all_tag() {
                Set::empty()
            } else {
                prev.remove(c.2.1)
            }
        }
    }
}

impl TagSelector {
    pub fn from_str(s: &str) -> (r: DisplayResult<TagSelector>)
        ensures
            agrees(r, spec_selector(s@)),
    {
        let v = to_chars(s);
        let append = v.len() > 0 && v[0] == '+';
        let rest = if append {
            sub_string(v.as_slice(), 1, v.len())
        } else {
            from_chars(v.as_slice())
        };
        assert(rest@ =~= (if append {
            s@.skip(1)
        } else {
            s@
        }));
        let tags = TagGroup::from_str(rest.as_str())?;
        Ok(TagSelector { tags, append })
    }

    pub fn to_string(&self) -> (r: String)
        ensures
            r@ == selector_text(self@),
    {
        let mut v: Vec<char> = Vec::new();
        if self.append {
            v.push('+');
        }
        let g = self.tags.to_string();
        push_str(&mut v, g.as_str());
        assert(v@ =~= selector_text(self@));
        from_chars(v.as_slice())
    }

    /// Merges `other` into this selector: appended when `other.append` holds,
    /// replacing this selector otherwise.
    pub fn push(&mut self, other: TagSelector)
        ensures
            final(self)@ == if other.append {
                (old(self).append, old(self)@.1 + other@.1)
            } else {
                other@
            },
    {
        if other.append {
            let mut more = other.tags.0;
            let ghost a = self.tags@;
            let ghost b = more@.map_values(|c: TagControl| c@);
            self.tags.0.append(&mut more);
            assert(self.tags@ =~= a + b);
        } else {
            *self = other;
        }
    }

    /// Applies the allowing and denying controls of this selector to `set`.
    pub fn fill_allowed_map(self, set: &mut TagSet)
        ensures
            final(set)@ == apply_controls(old(set)@, self@.1),
    {
        let mut i: usize = 0;
        let ctrls = self.tags.0;
        let ghost g = ctrls@.map_values(|c: TagControl| c@);
        assert(g == self@.1);
        while i < ctrls.len()
            invariant
                g == ctrls@.map_values(|c: TagControl| c@),
                i <= ctrls@.len(),
                set@ == apply_controls(old(set)@, g.take(i as int)),
            decreases ctrls@.len() - i,
        {
            let control = &ctrls[i];
            assert(g.take(i + 1).drop_last() =~= g.take(i as int));
            assert(g.take(i + 1).last() == control@);
            match &control.tag {
                TagOrType::Type(_) => {},
                TagOrType::Tag(t) => {
                    if control.allow {
                        if !t.match_all() {
                            set.insert(t.clone());
                        }
                    } else {
                        if t.match_all() {
                            set.clear();
                        } else {
                            set.remove(t);
                        }
                    }
                },
            }
            i = i + 1;
        }
        assert(g.take(ctrls@.len() as int) =~= g);
    }

    /// The tags allowed by this selector, starting from no tag.
    pub fn into_allowed_set(self) -> (r: TagSet)
        ensures
            r@ == apply_controls(Set::empty(), self@.1),
    {
        let mut set = TagSet::new();
        self.fill_allowed_map(&mut set);
        set
    }

    pub fn select(&self, tags: &TagSet, ty: &ScriptType) -> (r: SelectResult)
        ensures
            r == spec_select(self@.1, tags@, ty@),
    {
        self.tags.select(tags, ty)
    }
}

/// The selectors in force, in order.
#[derive(Debug, Clone)]
pub struct TagSelectorGroup(pub Vec<TagSelector>);

impl View for TagSelectorGroup {
    type V = Seq<(bool, Seq<ControlV>)>;

    open spec fn view(&self) -> Seq<(bool, Seq<ControlV>)> {
        self.0@.map_values(|s: TagSelector| s@)
    }
}

/// Opinion of the last selector that has one (`false` when none has).
pub open spec fn last_opinion(gs: Seq<(bool, Seq<ControlV>)>, tags: Set<Seq<char>>, ty: Seq<char>) -> bool
    decreases gs.len(),
{
    if gs.len() == 0 {
        false
    } else {
        match spec_select(gs.last().1, tags, ty) {
            SelectResult::Normal(b) => b,
            _ => last_opinion(gs.drop_last(), tags, ty),
        }
    }
}

/// Some selector of the list gives `MandatoryFalse`.
pub open spec fn refused_before(gs: Seq<(bool, Seq<ControlV>)>, tags: Set<Seq<char>>, ty: Seq<char>) -> bool {
    exists|i: int| 0 <= i < gs.len() && spec_select(#[trigger] gs[i].1, tags, ty) == SelectResult::MandatoryFalse
}

/// Whether a script passes a list of selectors: one `MandatoryFalse` refuses it,
/// otherwise the last selector with an opinion decides, and none refuses it.
pub open spec fn spec_group_select(gs: Seq<(bool, Seq<ControlV>)>, tags: Set<Seq<char>>, ty: Seq<char>) -> bool {
    !refused_before(gs, tags, ty) && last_opinion(gs, tags, ty)
}

impl TagSelectorGroup {
    pub fn new() -> (r: TagSelectorGroup)
        ensures
            r@ == Seq::<(bool, Seq<ControlV>)>::empty(),
    {
        let r = TagSelectorGroup(Vec::new());
        assert(r@ =~= Seq::<(bool, Seq<ControlV>)>::empty());
        r
    }

    pub fn from(t: TagSelector) -> (r: TagSelectorGroup)
        ensures
            r@ == seq![t@],
    {
        let r = TagSelectorGroup(vec![t]);
        assert(r@ =~= seq![t@]);
        r
    }

    /// Adds a selector: appended when it says so, replacing all the others otherwise.
    pub fn push(&mut self, selector: TagSelector)
        ensures
            final(self)@ == if selector.append {
                old(self)@.push(selector@)
            } else {
                seq![selector@]
            },
    {
        if selector.append {
            self.0.push(selector);
            assert(self@ =~= old(self)@.push(selector@));
        } else {
            self.0 = vec![selector];
            assert(self@ =~= seq![selector@]);
        }
    }

    /// Whether a script with `tags` and type `ty` passes all selectors.
    pub fn select(&self, tags: &TagSet, ty: &ScriptType) -> (r: bool)
        ensures
            r == spec_group_select(self@, tags@, ty@),
    {
        let mut pass = false;
        let mut i: usize = 0;
        while i < self.0.len()
            invariant
                i <= self.0@.len(),
                !refused_before(self@.take(i as int), tags@, ty@),
                pass == last_opinion(self@.take(i as int), tags@, ty@),
            decreases self.0@.len() - i,
        {
            let res = self.0[i].select(tags, ty);
            let ghost pre = self@.take(i as int);
            assert(self@.take(i + 1).drop_last() =~= pre);
            assert(self@.take(i + 1).last() == self.0@[i as int]@);
            match res {
                SelectResult::MandatoryFalse => {
                    assert(refused_before(self@, tags@, ty@)) by {
                        assert(spec_select(self@[i as int].1, tags@, ty@) == SelectResult::MandatoryFalse);
                    }
                    return false;
                },
                SelectResult::Normal(b) => {
                    pass = b;
                },
                SelectResult::NoHit => {},
            }
            assert(!refused_before(self@.take(i + 1), tags@, ty@)) by {
                if refused_before(self@.take(i + 1), tags@, ty@) {
                    let k = choose|k: int| 0 <= k < i + 1 && spec_select(#[trigger] self@.take(i + 1)[k].1, tags@, ty@) == SelectResult::MandatoryFalse;
                    if k < i {
                        assert(self@.take(i + 1)[k] == pre[k]);
                    }
                }
            }
            i = i + 1;
        }
        assert(self@.take(self.0@.len() as int) =~= self@);
        pass
    }
}

} // verus!

verus! {

/// A control that reads back as itself: its name is legal, holds no comma, and an
/// allowed tag does not start with `^` (which would read as a denial).
pub open spec fn control_round_trips(c: ControlV) -> bool {
    &&& !is_illegal_name(c.2.1)
    &&& free_of(c.2.1, ',')
    &&& (c.0 && !c.2.0 ==> c.2.1[0] != '^')
}

#[verifier::spinoff_prover]
proof fn lemma_control_round_trip(c: ControlV)
    requires
        control_round_trips(c),
    ensures
        spec_control(control_text(c)) == Ok::<ControlV, (FormatCode, Seq<char>)>(c),
        free_of(control_text(c), ','),
        control_text(c).len() > 0,
{
    let t = tag_or_type_text(c.2);
    let pre = if c.0 {
        Seq::<char>::empty()
    } else {
        seq!['^']
    };
    let post = if c.1 {
        seq!['!']
    } else {
        Seq::<char>::empty()
    };
    let s = control_text(c);
    assert(s == pre + t + post);
    assert(c.2.1.len() > 0);
    // names are legal, so they hold no `!` and no `@`
    assert(c.2.1[c.2.1.len() - 1] != '!') by {
        if c.2.1[c.2.1.len() - 1] == '!' {
            assert(crate::util::is_forbidden_char(c.2.1[c.2.1.len() - 1]));
        }
    }
    assert(c.2.1[0] != '@') by {
        if c.2.1[0] == '@' {
            assert(crate::util::is_forbidden_char(c.2.1[0]));
        }
    }
    let s1 = if c.0 {
        s
    } else {
        s.skip(1)
    };
    assert(s1 =~= t + post);
    assert(t.len() > 0);
    if c.1 {
        assert(s1.last() == '!');
        assert(s1.drop_last() =~= t);
    } else {
        assert(s1 =~= t);
        assert(t.last() == c.2.1.last());
    }
    if c.2.0 {
        assert(t.skip(1) =~= c.2.1);
    }
    assert(free_of(s, ',')) by {
        assert forall|i: int| 0 <= i < s.len() implies s[i] != ',' by {
            if c.0 {
                if c.2.0 {
                    if i > 0 && i < 1 + c.2.1.len() {
                        assert(s[i] == c.2.1[i - 1]);
                    }
                } else {
                    if i < c.2.1.len() {
                        assert(s[i] == c.2.1[i]);
                    }
                }
            } else {
                if c.2.0 {
                    if i > 1 && i < 2 + c.2.1.len() {
                        assert(s[i] == c.2.1[i - 2]);
                    }
                } else {
                    if i > 0 && i < 1 + c.2.1.len() {
                        assert(s[i] == c.2.1[i - 1]);
                    }
                }
            }
        }
    }
}

proof fn lemma_controls_round_trip(g: Seq<ControlV>)
    requires
        forall|i: int| 0 <= i < g.len() ==> control_round_trips(#[trigger] g[i]),
    ensures
        spec_controls(g.map_values(|c: ControlV| control_text(c))) == Ok::<
            Seq<ControlV>,
            (FormatCode, Seq<char>),
        >(g),
    decreases g.len(),
{
    let texts = g.map_values(|c: ControlV| control_text(c));
    if g.len() > 0 {
        lemma_control_round_trip(g[0]);
        let rest = g.drop_first();
        assert forall|i: int| 0 <= i < rest.len() implies control_round_trips(#[trigger] rest[i]) by {
            assert(rest[i] == g[i + 1]);
        }
        lemma_controls_round_trip(rest);
        assert(texts.drop_first() =~= rest.map_values(|c: ControlV| control_text(c)));
        assert(seq![g[0]] + rest =~= g);
    } else {
        assert(g =~= Seq::<ControlV>::empty());
    }
}

/// Reading back the text of a selector gives the same selector, for every selector
/// whose controls round-trip (see `control_round_trips`) and that, when it does not
/// append, does not start with an allowed tag named `+...`: this is what lets
/// selectors be stored as text in the configuration.
pub proof fn law_selector_text_round_trip(v: (bool, Seq<ControlV>))
    requires
        forall|i: int| 0 <= i < v.1.len() ==> control_round_trips(#[trigger] v.1[i]),
        !v.0 && v.1.len() > 0 ==> !(v.1[0].0 && !v.1[0].2.0 && v.1[0].2.1[0] == '+'),
    ensures
        spec_selector(selector_text(v)) == Ok::<(bool, Seq<ControlV>), (FormatCode, Seq<char>)>(v),
{
    let g = v.1;
    let texts = g.map_values(|c: ControlV| control_text(c));
    let body = group_text(g);
    let s = selector_text(v);
    if g.len() == 0 {
        assert(texts =~= Seq::<Seq<char>>::empty());
        assert(body =~= Seq::<char>::empty());
        assert(g =~= Seq::<ControlV>::empty());
        assert(spec_group(body) == Ok::<Seq<ControlV>, (FormatCode, Seq<char>)>(g));
    } else {
        assert forall|i: int| 0 <= i < texts.len() implies free_of(#[trigger] texts[i], ',') by {
            lemma_control_round_trip(g[i]);
        }
        lemma_split_join(texts, ',');
        lemma_controls_round_trip(g);
        lemma_control_round_trip(g[0]);
        lemma_join_first_char(texts, seq![',']);
        assert(body.len() > 0);
        assert(spec_group(body) == Ok::<Seq<ControlV>, (FormatCode, Seq<char>)>(g));
        if !v.0 {
            let c = g[0];
            let pre = if c.0 {
                Seq::<char>::empty()
            } else {
                seq!['^']
            };
            let post = if c.1 {
                seq!['!']
            } else {
                Seq::<char>::empty()
            };
            assert(control_text(c) == pre + tag_or_type_text(c.2) + post);
            assert(texts[0] == control_text(c));
            assert(c.2.1.len() > 0);
            if !c.0 {
                assert(control_text(c)[0] == '^');
            } else if c.2.0 {
                assert(control_text(c)[0] == '@');
            } else {
                assert(control_text(c)[0] == c.2.1[0]);
            }
            assert(body[0] != '+');
        }
    }
    if v.0 {
        assert(s[0] == '+');
        assert(s.skip(1) =~= body);
    } else {
        assert(s =~= body);
    }
}

impl Clone for TagOrType {
    fn clone(&self) -> (r: TagOrType)
        ensures
            r@ == self@,
    {
        match self {
            TagOrType::Type(t) => TagOrType::Type(ScriptType(t.0.clone())),
            TagOrType::Tag(t) => TagOrType::Tag(t.clone()),
        }
    }
}

impl Clone for TagControl {
    fn clone(&self) -> (r: TagControl)
        ensures
            r@ == self@,
    {
        TagControl { allow: self.allow, mandatory: self.mandatory, tag: self.tag.clone() }
    }
}

impl Clone for TagGroup {
    fn clone(&self) -> (r: TagGroup)
        ensures
            r@ == self@,
    {
        let mut v: Vec<TagControl> = Vec::new();
        let mut i: usize = 0;
        while i < self.0.len()
            invariant
                i <= self.0@.len(),
                v@.len() == i,
                forall|j: int| 0 <= j < i ==> (#[trigger] v@[j])@ == self.0@[j]@,
            decreases self.0@.len() - i,
        {
            let c = self.0[i].clone();
            v.push(c);
            i = i + 1;
        }
        let r = TagGroup(v);
        assert(r@ =~= self@);
        r
    }
}

impl Clone for TagSelector {
    fn clone(&self) -> (r: TagSelector)
        ensures
            r@ == self@,
    {
        TagSelector { tags: self.tags.clone(), append: self.append }
    }
}

} // verus!
