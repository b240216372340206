//! The order of script names: named scripts by their names, character by
//! character, before anonymous ones by their numbers.
use crate::list::{str_less, str_lt};
use crate::script::{NameV, ScriptName};
use crate::text::str_eq;
use core::cmp::Ordering;
use vstd::prelude::*;

verus! {

/// How `a` compares to `b`.
pub open spec fn name_order(a: NameV, b: NameV) -> Ordering {
    match (a, b) {
        (Err(x), Err(y)) => if str_lt(x, y) {
            Ordering::Less
        } else if x == y {
            Ordering::Equal
        } else {
            Ordering::Greater
        },
        (Ok(i), Ok(j)) => if i < j {
            Ordering::Less
        } else if i == j {
            Ordering::Equal
        } else {
            Ordering::Greater
        },
        (Err(_), Ok(_)) => Ordering::Less,
        (Ok(_), Err(_)) => Ordering::Greater,
    }
}

impl ScriptName {
    pub fn partial_cmp(&self, other: &ScriptName) -> (r: Option<Ordering>)
        ensures
            r == Some(name_order(self@, other@)),
    {
        match (self, other) {
            (ScriptName::Named(n1), ScriptName::Named(n2)) => {
                if str_less(n1.as_str(), n2.as_str()) {
                    Some(Ordering::Less)
                } else if str_eq(n1.as_str(), n2.as_str()) {
                    Some(Ordering::Equal)
                } else {
                    Some(Ordering::Greater)
                }
            },
            (ScriptName::Anonymous(i1), ScriptName::Anonymous(i2)) => {
                if *i1 < *i2 {
                    Some(Ordering::Less)
                } else if *i1 == *i2 {
                    Some(Ordering::Equal)
                } else {
                    Some(Ordering::Greater)
                }
            },
            (ScriptName::Named(_), ScriptName::Anonymous(_)) => Some(Ordering::Less),
            (ScriptName::Anonymous(_), ScriptName::Named(_)) => Some(Ordering::Greater),
        }
    }
}

proof fn lemma_str_lt_irrefl(a: Seq<char>)
    ensures
        !str_lt(a, a),
    decreases a.len(),
{
    if a.len() > 0 {
        lemma_str_lt_irrefl(a.drop_first());
    }
}

proof fn lemma_str_lt_asym(a: Seq<char>, b: Seq<char>)
    ensures
        str_lt(a, b) ==> !str_lt(b, a),
        !str_lt(a, b) && a != b ==> str_lt(b, a),
    decreases a.len(),
{
    if a.len() > 0 && b.len() > 0 {
        if a[0] == b[0] {
            lemma_str_lt_asym(a.drop_first(), b.drop_first());
            if a.drop_first() == b.drop_first() {
                assert(a =~= seq![a[0]] + a.drop_first());
                assert(b =~= seq![b[0]] + b.drop_first());
            }
        } else {
            let u = a[0] as u32;
            if u == (b[0] as u32) {
                vstd::utf8::char_u32_cast(a[0], u);
                vstd::utf8::char_u32_cast(b[0], u);
            }
        }
    } else if a.len() == 0 && b.len() == 0 {
        assert(a =~= b);
    }
}

/// Names compare equal exactly when they are the same, and `a` comes before `b`
/// exactly when `b` comes after `a`: the order `Ord` relies on.
pub proof fn law_name_order_consistent(a: NameV, b: NameV)
    ensures
        (name_order(a, b) == Ordering::Equal) == (a == b),
        (name_order(a, b) == Ordering::Less) == (name_order(b, a) == Ordering::Greater),
{
    match (a, b) {
        (Err(x), Err(y)) => {
            lemma_str_lt_asym(x, y);
            lemma_str_lt_asym(y, x);
            lemma_str_lt_irrefl(x);
        },
        _ => {},
    }
}

} // verus!
