//! Help and environment messages written in a script's comments:
//! `[HS_HELP]: ...`, `[HS_ENV]: ...` and `[HS_ENV_HELP]: ...`.
//!
//! Only the leading block of such lines is read: blank lines are skipped, and the
//! first other line without a key ends the block.
use crate::text::{all_white, find, find_sub, from_chars, is_blank, sub_chars, to_chars};
use vstd::prelude::*;

verus! {

pub open spec fn help_key() -> Seq<char> {
    seq!['[', 'H', 'S', '_', 'H', 'E', 'L', 'P', ']', ':']
}

pub open spec fn env_key() -> Seq<char> {
    seq!['[', 'H', 'S', '_', 'E', 'N', 'V', ']', ':']
}

pub open spec fn env_help_key() -> Seq<char> {
    seq!['[', 'H', 'S', '_', 'E', 'N', 'V', '_', 'H', 'E', 'L', 'P', ']', ':']
}

/// The keys, in the order they are tried on a line.
pub open spec fn keys() -> Seq<Seq<char>> {
    seq![help_key(), env_key(), env_help_key()]
}

/// A message: the text of its line after the key, without one leading space.
pub struct Message {
    start: usize,
    s: String,
}

/// Text after the key, with one leading space dropped.
pub open spec fn message_text(line: Seq<char>, start: int) -> Seq<char> {
    let rest = line.skip(start);
    if rest.len() > 0 && rest[0] == ' ' {
        rest.skip(1)
    } else {
        rest
    }
}

impl View for Message {
    type V = Seq<char>;

    closed spec fn view(&self) -> Seq<char> {
        message_text(self.s@, self.start as int)
    }
}

impl Message {
    #[verifier::type_invariant]
    spec fn wf(self) -> bool {
        self.start <= self.s@.len()
    }

    /// The message's text.
    pub fn as_ref(&self) -> (r: String)
        ensures
            r@ == self@,
    {
        proof {
            use_type_invariant(self);
        }
        let v = to_chars(self.s.as_str());
        let mut start = self.start;
        if start < v.len() && v[start] == ' ' {
            start = start + 1;
        }
        let r = sub_chars(v.as_slice(), start, v.len());
        assert(r@ =~= self@);
        from_chars(r.as_slice())
    }

    pub fn to_string(&self) -> (r: String)
        ensures
            r@ == self@,
    {
        self.as_ref()
    }
}

/// The first key found on a line (tried in the order of `keys`) and where the text
/// after it starts.
pub open spec fn key_hit(line: Seq<char>) -> Option<(nat, int)> {
    match find_sub(line, help_key()) {
        Some(p) => Some((0, p + help_key().len())),
        None => match find_sub(line, env_key()) {
            Some(p) => Some((1, p + env_key().len())),
            None => match find_sub(line, env_help_key()) {
                Some(p) => Some((2, p + env_help_key().len())),
                None => None,
            },
        },
    }
}

/// The messages of the leading block of lines, with the position of their key in
/// `keys`: blank lines are skipped and the first line without a key ends the block.
pub open spec fn spec_extract(lines: Seq<Seq<char>>) -> Seq<(nat, Seq<char>)>
    decreases lines.len(),
{
    if lines.len() == 0 {
        Seq::empty()
    } else if all_white(lines[0]) {
        spec_extract(lines.drop_first())
    } else {
        match key_hit(lines[0]) {
            None => Seq::empty(),
            Some((k, st)) => seq![(k, message_text(lines[0], st))] + spec_extract(lines.drop_first()),
        }
    }
}

/// The messages with key `k`, in order.
pub open spec fn with_key(v: Seq<(nat, Seq<char>)>, k: nat) -> Seq<Seq<char>>
    decreases v.len(),
{
    if v.len() == 0 {
        Seq::empty()
    } else {
        with_key(v.drop_last(), k) + if v.last().0 == k {
            seq![v.last().1]
        } else {
            Seq::<Seq<char>>::empty()
        }
    }
}

/// The environment messages, `true` for `[HS_ENV]` and `false` for `[HS_ENV_HELP]`.
pub open spec fn env_messages(v: Seq<(nat, Seq<char>)>) -> Seq<(bool, Seq<char>)>
    decreases v.len(),
{
    if v.len() == 0 {
        Seq::empty()
    } else {
        env_messages(v.drop_last()) + if v.last().0 == 1 {
            seq![(true, v.last().1)]
        } else if v.last().0 == 2 {
            seq![(false, v.last().1)]
        } else {
            Seq::<(bool, Seq<char>)>::empty()
        }
    }
}

fn find_key(line: &[char]) -> (r: Option<(usize, usize)>)
    ensures
        match r {
            Some((k, st)) => key_hit(line@) == Some((k as nat, st as int)) && st <= line@.len(),
            None => key_hit(line@) is None,
        },
{
    let h = vec!['[', 'H', 'S', '_', 'H', 'E', 'L', 'P', ']', ':'];
    let e = vec!['[', 'H', 'S', '_', 'E', 'N', 'V', ']', ':'];
    let eh = vec!['[', 'H', 'S', '_', 'E', 'N', 'V', '_', 'H', 'E', 'L', 'P', ']', ':'];
    assert(h@ =~= help_key());
    assert(e@ =~= env_key());
    assert(eh@ =~= env_help_key());
    let n = line.len();
    if let Some(p) = find(line, h.as_slice()) {
        proof {
            crate::text::lemma_find_sub_spec(line@, help_key());
        }
        assert(p + 10 <= n);
        return Some((0, p + 10));
    }
    if let Some(p) = find(line, e.as_slice()) {
        proof {
            crate::text::lemma_find_sub_spec(line@, env_key());
        }
        assert(p + 9 <= n);
        return Some((1, p + 9));
    }
    if let Some(p) = find(line, eh.as_slice()) {
        proof {
            crate::text::lemma_find_sub_spec(line@, env_help_key());
        }
        assert(p + 14 <= n);
        return Some((2, p + 14));
    }
    None
}

/// All messages of the leading block of `content`'s lines, with the position of
/// their key: 0 for `[HS_HELP]:`, 1 for `[HS_ENV]:`, 2 for `[HS_ENV_HELP]:`.
pub fn extract_all_help_from_content(content: Vec<String>) -> (r: Vec<(usize, Message)>)
    ensures
        r@.len() == spec_extract(content.deep_view()).len(),
        forall|i: int|
            0 <= i < r@.len() ==> (#[trigger] r@[i]).0 as nat == spec_extract(content.deep_view())[i].0
                && r@[i].1@ == spec_extract(content.deep_view())[i].1,
{
    let ghost lines = content.deep_view();
    let mut r: Vec<(usize, Message)> = Vec::new();
    let mut i: usize = 0;
    let n = content.len();
    assert(lines.skip(0) =~= lines);
    while i < n
        invariant
            n == content@.len(),
            lines == content.deep_view(),
            lines.len() == n,
            i <= n,
            r@.len() + spec_extract(lines.skip(i as int)).len() == spec_extract(lines).len(),
            forall|j: int|
                0 <= j < r@.len() ==> (#[trigger] r@[j]).0 as nat == spec_extract(lines)[j].0 && r@[j].1@
                    == spec_extract(lines)[j].1,
            forall|j: int|
                0 <= j < spec_extract(lines.skip(i as int)).len() ==> spec_extract(lines)[r@.len() + j]
                    == #[trigger] spec_extract(lines.skip(i as int))[j],
        decreases n - i,
    {
        let line = content[i].clone();
        assert(line@ == lines[i as int]);
        let ghost rest = lines.skip(i as int);
        assert(rest.drop_first() =~= lines.skip(i + 1));
        assert(rest[0] == line@);
        let v = to_chars(line.as_str());
        if is_blank(v.as_slice()) {
            i = i + 1;
            continue;
        }
        match find_key(v.as_slice()) {
            None => {
                assert(spec_extract(rest) =~= Seq::<(nat, Seq<char>)>::empty());
                return r;
            },
            Some((k, st)) => {
                let m = Message { start: st, s: line };
                let ghost old_len = r@.len();
                assert(spec_extract(rest) == seq![(k as nat, message_text(rest[0], st as int))] + spec_extract(lines.skip(i + 1)));
                assert(spec_extract(lines)[old_len as int] == spec_extract(rest)[0]);
                r.push((k, m));
                assert forall|j: int| 0 <= j < spec_extract(lines.skip(i + 1)).len() implies spec_extract(lines)[r@.len() + j]
                    == #[trigger] spec_extract(lines.skip(i + 1))[j] by {
                    assert(spec_extract(rest)[j + 1] == spec_extract(lines.skip(i + 1))[j]);
                }
            },
        }
        i = i + 1;
    }
    assert(lines.skip(n as int) =~= Seq::<Seq<char>>::empty());
    r
}

/// The help messages (`[HS_HELP]:`) of the leading block of `content`'s lines.
pub fn extract_help_from_content(content: Vec<String>) -> (r: Vec<Message>)
    ensures
        r@.map_values(|m: Message| m@) == with_key(spec_extract(content.deep_view()), 0),
{
    let all = extract_all_help_from_content(content);
    let ghost sp = spec_extract(content.deep_view());
    let mut r: Vec<Message> = Vec::new();
    let mut all = all;
    let ghost orig = all@;
    let mut i: usize = 0;
    let n = all.len();
    while i < n
        invariant
            n == orig.len(),
            orig.len() == sp.len(),
            forall|j: int| 0 <= j < orig.len() ==> (#[trigger] orig[j]).0 as nat == sp[j].0 && orig[j].1@ == sp[j].1,
            all@ == orig.skip(i as int),
            i <= n,
            r@.map_values(|m: Message| m@) == with_key(sp.take(i as int), 0),
        decreases n - i,
    {
        let (k, m) = all.remove(0);
        assert(all@ =~= orig.skip(i + 1));
        assert(sp.take(i + 1).drop_last() =~= sp.take(i as int));
        let ghost old_r = r@.map_values(|m: Message| m@);
        if k == 0 {
            r.push(m);
            assert(r@.map_values(|m: Message| m@) =~= old_r.push(sp[i as int].1));
        } else {
            assert(r@.map_values(|m: Message| m@) =~= old_r);
        }
        assert(with_key(sp.take(i + 1), 0) =~= with_key(sp.take(i as int), 0) + if sp[i as int].0 == 0 {
            seq![sp[i as int].1]
        } else {
            Seq::<Seq<char>>::empty()
        });
        i = i + 1;
    }
    assert(sp.take(n as int) =~= sp);
    r
}

/// The environment messages of the leading block of `content`'s lines: `true` for
/// `[HS_ENV]:`, `false` for `[HS_ENV_HELP]:`.
pub fn extract_env_from_content_help_aware(content: Vec<String>) -> (r: Vec<(bool, Message)>)
    ensures
        r@.map_values(|x: (bool, Message)| (x.0, x.1@)) == env_messages(spec_extract(content.deep_view())),
{
    let all = extract_all_help_from_content(content);
    let ghost sp = spec_extract(content.deep_view());
    let mut r: Vec<(bool, Message)> = Vec::new();
    let mut all = all;
    let ghost orig = all@;
    let mut i: usize = 0;
    let n = all.len();
    while i < n
        invariant
            n == orig.len(),
            orig.len() == sp.len(),
            forall|j: int| 0 <= j < orig.len() ==> (#[trigger] orig[j]).0 as nat == sp[j].0 && orig[j].1@ == sp[j].1,
            all@ == orig.skip(i as int),
            i <= n,
            r@.map_values(|x: (bool, Message)| (x.0, x.1@)) == env_messages(sp.take(i as int)),
        decreases n - i,
    {
        let (k, m) = all.remove(0);
        assert(all@ =~= orig.skip(i + 1));
        assert(sp.take(i + 1).drop_last() =~= sp.take(i as int));
        let ghost old_r = r@.map_values(|x: (bool, Message)| (x.0, x.1@));
        if k == 1 {
            r.push((true, m));
            assert(r@.map_values(|x: (bool, Message)| (x.0, x.1@)) =~= old_r.push((true, sp[i as int].1)));
        } else if k == 2 {
            r.push((false, m));
            assert(r@.map_values(|x: (bool, Message)| (x.0, x.1@)) =~= old_r.push((false, sp[i as int].1)));
        } else {
            assert(r@.map_values(|x: (bool, Message)| (x.0, x.1@)) =~= old_r);
        }
        i = i + 1;
    }
    assert(sp.take(n as int) =~= sp);
    r
}

/// One step of reading messages: blank lines are skipped; the next line gives its
/// message, or ends the block when it has no key. Returns the message and the
/// lines left.
pub open spec fn iter_step(lines: Seq<Seq<char>>) -> (Option<(nat, Seq<char>)>, Seq<Seq<char>>)
    decreases lines.len(),
{
    if lines.len() == 0 {
        (None, lines)
    } else if all_white(lines[0]) {
        iter_step(lines.drop_first())
    } else {
        match key_hit(lines[0]) {
            Some((k, st)) => (Some((k, message_text(lines[0], st))), lines.drop_first()),
            None => (None, lines.drop_first()),
        }
    }
}

/// Reads the messages of lines one at a time.
pub struct Iter {
    content: Vec<String>,
    pos: usize,
}

impl View for Iter {
    type V = Seq<Seq<char>>;

    /// The lines still to read.
    closed spec fn view(&self) -> Seq<Seq<char>> {
        self.content.deep_view().skip(self.pos as int)
    }
}

impl Iter {
    #[verifier::type_invariant]
    spec fn wf(self) -> bool {
        self.pos <= self.content@.len()
    }

    pub fn new(content: Vec<String>) -> (r: Iter)
        ensures
            r@ == content.deep_view(),
    {
        let r = Iter { content, pos: 0 };
        assert(r@ =~= r.content.deep_view());
        r
    }

    /// The next message with the position of its key, as `iter_step` reads it.
    pub fn next(&mut self) -> (r: Option<(usize, Message)>)
        ensures
            final(self)@ == iter_step(old(self)@).1,
            match iter_step(old(self)@).0 {
                Some((k, m)) => r matches Some((k2, m2)) && k2 as nat == k && m2@ == m,
                None => r is None,
            },
    {
        proof {
            use_type_invariant(&*self);
        }
        let ghost lines = self.content.deep_view();
        loop
            invariant
                lines == self.content.deep_view(),
                self.pos <= lines.len(),
                iter_step(old(self)@) == iter_step(lines.skip(self.pos as int)),
                self.content == old(self).content,
            decreases lines.len() - self.pos,
        {
            let ghost rest = lines.skip(self.pos as int);
            if self.pos >= self.content.len() {
                assert(rest.len() == 0);
                return None;
            }
            let line = self.content[self.pos].clone();
            assert(line@ == lines[self.pos as int]);
            assert(rest.drop_first() =~= lines.skip(self.pos + 1));
            assert(rest[0] == line@);
            self.pos = self.pos + 1;
            let v = to_chars(line.as_str());
            if !is_blank(v.as_slice()) {
                match find_key(v.as_slice()) {
                    None => {
                        return None;
                    },
                    Some((k, st)) => {
                        return Some((k, Message { start: st, s: line }));
                    },
                }
            }
        }
    }
}

/// Reading messages one at a time: a step that gives a message leaves the
/// messages of the lines after it, and a step that gives none ends them.
pub proof fn law_iter_step_extract(lines: Seq<Seq<char>>)
    ensures
        match iter_step(lines) {
            (Some(m), rest) => spec_extract(lines) == seq![m] + spec_extract(rest),
            (None, _) => spec_extract(lines) == Seq::<(nat, Seq<char>)>::empty(),
        },
    decreases lines.len(),
{
    if lines.len() > 0 && all_white(lines[0]) {
        law_iter_step_extract(lines.drop_first());
    }
}

/// The help message a listing shows for a script: the first one of its
/// content, or nothing.
pub open spec fn first_help_text(lines: Seq<Seq<char>>) -> Seq<char> {
    let h = with_key(spec_extract(lines), 0);
    if h.len() > 0 {
        h[0]
    } else {
        Seq::empty()
    }
}

pub fn first_help(content: Vec<String>) -> (r: String)
    ensures
        r@ == first_help_text(content.deep_view()),
{
    let helps = extract_help_from_content(content);
    if helps.len() > 0 {
        assert(helps@.map_values(|m: Message| m@)[0] == helps@[0]@);
        helps[0].as_ref()
    } else {
        String::new()
    }
}

} // verus!
