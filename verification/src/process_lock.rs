//! The lock file of a running script: what is written in it, and how it is read
//! back.
use crate::error::{from_parse_int_error, Error, Result};
use crate::num::{
    all_digits, decimal, is_digit, law_decimal_round_trip, law_signed_decimal_round_trip, decimal_chars, parse_i64_std, parse_u32_std, signed_decimal, signed_decimal_chars,
    spec_parse_i64, spec_parse_nat,
};
use crate::text::{find_char, find_sub, from_chars, push_all, push_str, split_once_seq, sub_string, to_chars};
use vstd::prelude::*;

verus! {

/// What a running script writes in its lock file.
#[derive(Debug)]
pub struct ProcessInfoWrite<'a> {
    pub pid: u32,
    pub script_id: i64,
    pub script_name: &'a str,
    pub args: &'a [String],
}

/// The arguments, each after a space.
pub open spec fn spaced_args(args: Seq<Seq<char>>) -> Seq<char>
    decreases args.len(),
{
    if args.len() == 0 {
        Seq::empty()
    } else {
        spaced_args(args.drop_last()) + seq![' '] + args.last()
    }
}

/// The text of a lock file: `pid script_id`, then on the next line the script's
/// name and its arguments.
pub open spec fn lock_text(pid: u32, script_id: i64, name: Seq<char>, args: Seq<Seq<char>>) -> Seq<char> {
    decimal(pid as nat) + seq![' '] + signed_decimal(script_id as int) + seq!['\n'] + name + spaced_args(args)
}

impl<'a> ProcessInfoWrite<'a> {
    /// The text written in the lock file.
    pub fn content(&self) -> (r: String)
        ensures
            r@ == lock_text(self.pid, self.script_id, self.script_name@, self.args@.map_values(|s: String| s@)),
    {
        let mut v = decimal_chars(self.pid as u64);
        v.push(' ');
        let sid = signed_decimal_chars(self.script_id);
        push_all(&mut v, sid.as_slice());
        v.push('\n');
        push_str(&mut v, self.script_name);
        let ghost av = self.args@.map_values(|s: String| s@);
        let ghost head = v@;
        let mut i: usize = 0;
        assert(av.take(0) =~= Seq::<Seq<char>>::empty());
        while i < self.args.len()
            invariant
                av == self.args@.map_values(|s: String| s@),
                i <= av.len(),
                v@ == head + spaced_args(av.take(i as int)),
            decreases av.len() - i,
        {
            v.push(' ');
            push_str(&mut v, self.args[i].as_str());
            assert(av.take(i + 1).drop_last() =~= av.take(i as int));
            assert(v@ =~= head + spaced_args(av.take(i + 1)));
            i = i + 1;
        }
        assert(av.take(av.len() as int) =~= av);
        assert(v@ =~= lock_text(self.pid, self.script_id, self.script_name@, av));
        from_chars(v.as_slice())
    }
}

/// What is read back from a lock file.
#[derive(Debug)]
pub struct ProcessInfoRead {
    raw_file_content: String,
    file_content_start: usize,
    pub pid: u32,
    pub script_id: i64,
}

/// The first line and the rest of a lock file, if it has a line break.
pub open spec fn lock_lines(raw: Seq<char>) -> Option<(Seq<char>, Seq<char>)> {
    match find_sub(raw, seq!['\n']) {
        Some(nl) => Some((raw.take(nl), raw.skip(nl + 1))),
        None => None,
    }
}

/// How a lock file is read: the process id and the script id from the first line,
/// separated by a space, and what follows the line break.
pub open spec fn spec_lock_read(raw: Seq<char>) -> Option<(u32, i64, Seq<char>)> {
    match lock_lines(raw) {
        Some((line, rest)) => match split_once_seq(line, seq![' ']) {
            Some((p, s)) => match (spec_parse_nat(p, u32::MAX as nat), spec_parse_i64(s)) {
                (Some(pid), Some(sid)) => Some((pid as u32, sid as i64, rest)),
                _ => None,
            },
            None => None,
        },
        None => None,
    }
}

impl ProcessInfoRead {
    /// What follows the first line.
    pub closed spec fn spec_content(&self) -> Seq<char> {
        self.raw_file_content@.skip(self.file_content_start as int)
    }

    /// The process id and the script id read.
    pub closed spec fn spec_ids(&self) -> (u32, i64) {
        (self.pid, self.script_id)
    }

    /// The start of the content lies within the text read.
    pub closed spec fn wf(&self) -> bool {
        self.file_content_start <= self.raw_file_content@.len()
    }

    /// Reads a lock file: a missing line break or space is an error naming it, and
    /// so is a number that does not read.
    pub fn new(raw_file_content: String) -> (r: Result<ProcessInfoRead>)
        ensures
            match spec_lock_read(raw_file_content@) {
                Some((pid, sid, rest)) => r matches Ok(info) && info.spec_ids() == (pid, sid)
                    && info.spec_content() == rest && info.wf(),
                None => r is Err,
            },
            lock_lines(raw_file_content@) is None ==> (r matches Err(Error::Others(m, src)) && m.deep_view()
                == seq!["can't find new line"@] && src is None),
            (lock_lines(raw_file_content@) matches Some((line, _)) && split_once_seq(line, seq![' ']) is None)
                ==> (r matches Err(Error::Others(m, src)) && m.deep_view() == seq!["can't find space"@] && src is None),
    {
        let v = to_chars(raw_file_content.as_str());
        let n = v.len();
        let new_line = match find_char(v.as_slice(), '\n') {
            Some(i) => i,
            None => return Err(Error::msg("can't find new line")),
        };
        proof {
            crate::text::lemma_find_sub_spec(v@, seq!['\n']);
        }
        let line = crate::text::sub_chars(v.as_slice(), 0, new_line);
        assert(line@ =~= v@.take(new_line as int));
        let space = match find_char(line.as_slice(), ' ') {
            Some(i) => i,
            None => return Err(Error::msg("can't find space")),
        };
        proof {
            crate::text::lemma_find_sub_spec(line@, seq![' ']);
        }
        let pid_text = sub_string(line.as_slice(), 0, space);
        let sid_text = sub_string(line.as_slice(), space + 1, line.len());
        assert(pid_text@ =~= line@.take(space as int));
        assert(sid_text@ =~= line@.skip(space + 1));
        let pid = match parse_u32_std(pid_text.as_str()) {
            Ok(p) => p,
            Err(e) => return Err(from_parse_int_error(e)),
        };
        let script_id = match parse_i64_std(sid_text.as_str()) {
            Ok(s) => s,
            Err(e) => return Err(from_parse_int_error(e)),
        };
        let r = ProcessInfoRead { script_id, pid, raw_file_content, file_content_start: new_line + 1 };
        assert(r.spec_content() =~= v@.skip(new_line + 1));
        Ok(r)
    }

    /// What follows the first line: the script's name and arguments.
    pub fn file_content(&self) -> (r: String)
        requires
            self.wf(),
        ensures
            r@ == self.spec_content(),
    {
        let v = to_chars(self.raw_file_content.as_str());
        sub_string(v.as_slice(), self.file_content_start, v.len())
    }
}

/// The layout of a lock file: `pid script_id`, a line break, then `body`.
pub open spec fn lock_layout(pid: u32, script_id: i64, body: Seq<char>) -> Seq<char> {
    decimal(pid as nat) + seq![' '] + signed_decimal(script_id as int) + seq!['\n'] + body
}

/// Any text laid out as `pid script_id`, a line break and a body reads back as
/// that process id, that script id and that body, whatever the body holds:
/// `ProcessInfoRead::new` on it succeeds with these ids, and `file_content`
/// gives the body.
pub proof fn law_lock_read_back(pid: u32, script_id: i64, body: Seq<char>)
    ensures
        spec_lock_read(lock_layout(pid, script_id, body)) == Some((pid, script_id, body)),
{
    let d = decimal(pid as nat);
    let sd = signed_decimal(script_id as int);
    let rest = body;
    let s = lock_layout(pid, script_id, body);
    law_decimal_round_trip(pid as nat);
    law_signed_decimal_round_trip(script_id);
    let m = if script_id < 0 {
        (-(script_id as int)) as nat
    } else {
        script_id as nat
    };
    law_decimal_round_trip(m);
    assert forall|i: int| 0 <= i < sd.len() implies sd[i] != ' ' && sd[i] != '\n' by {
        if script_id < 0 {
            if i > 0 {
                assert(sd[i] == decimal(m)[i - 1]);
                assert(is_digit(decimal(m)[i - 1]));
            }
        } else {
            assert(is_digit(sd[i]));
        }
    }
    let nl: int = (d.len() + 1 + sd.len()) as int;
    assert(s =~= d + seq![' '] + sd + seq!['\n'] + rest);
    assert(s[nl] == '\n');
    assert(crate::text::matches_at(s, seq!['\n'], nl)) by {
        assert(s.subrange(nl, nl + 1) =~= seq!['\n']);
    }
    assert forall|j: int| 0 <= j < nl implies !crate::text::matches_at(s, seq!['\n'], j) by {
        if crate::text::matches_at(s, seq!['\n'], j) {
            assert(s.subrange(j, j + 1)[0] == s[j]);
            if j < d.len() {
                assert(s[j] == d[j]);
                assert(is_digit(d[j]));
            } else if j == d.len() {
                assert(s[j] == ' ');
            } else {
                assert(s[j] == sd[j - d.len() - 1]);
            }
        }
    }
    crate::text::lemma_find_sub_some(s, seq!['\n'], nl);
    let line = s.take(nl);
    assert(line =~= d + seq![' '] + sd);
    assert(s.skip(nl + 1) =~= rest);
    assert(crate::text::matches_at(line, seq![' '], d.len() as int)) by {
        assert(line.subrange(d.len() as int, d.len() + 1int) =~= seq![' ']);
    }
    assert forall|j: int| 0 <= j < d.len() implies !crate::text::matches_at(line, seq![' '], j) by {
        if crate::text::matches_at(line, seq![' '], j) {
            assert(line.subrange(j, j + 1)[0] == line[j]);
            assert(line[j] == d[j]);
            assert(is_digit(d[j]));
        }
    }
    crate::text::lemma_find_sub_some(line, seq![' '], d.len() as int);
    assert(line.take(d.len() as int) =~= d);
    assert(line.skip(d.len() + 1int) =~= sd);
    assert(is_digit(d[0]));
}

/// A lock file reads back as what was written: the process id, the script id,
/// and the script's name with its arguments.
pub proof fn law_lock_round_trip(pid: u32, script_id: i64, name: Seq<char>, args: Seq<Seq<char>>)
    ensures
        spec_lock_read(lock_text(pid, script_id, name, args)) == Some((pid, script_id, name + spaced_args(args))),
{
    assert(lock_text(pid, script_id, name, args) =~= lock_layout(pid, script_id, name + spaced_args(args)));
    law_lock_read_back(pid, script_id, name + spaced_args(args));
}

} // verus!
