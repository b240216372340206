//! Templates of the `handlebars` crate, rendered with the information about a
//! script: named texts, numbers and lists of texts, given to the templates as a
//! JSON object.
use crate::error::Error;
use vstd::prelude::*;

verus! {

/// A value handed to templates: a text, a number, or a list of texts.
#[derive(Debug, Clone)]
pub enum InfoField {
    Text(String),
    Num(i64),
    List(Vec<String>),
}

/// View of a value handed to templates.
pub enum InfoFieldV {
    Text(Seq<char>),
    Num(i64),
    List(Seq<Seq<char>>),
}

impl View for InfoField {
    type V = InfoFieldV;

    open spec fn view(&self) -> InfoFieldV {
        match self {
            InfoField::Text(s) => InfoFieldV::Text(s@),
            InfoField::Num(n) => InfoFieldV::Num(*n),
            InfoField::List(l) => InfoFieldV::List(l.deep_view()),
        }
    }
}

/// What templates are rendered with: named values, each a member of the JSON
/// object the templates see (a later value under the same name wins).
#[derive(Debug, Clone)]
pub struct TemplateInfo(pub Vec<(String, InfoField)>);

/// View of the information: names and values, in order.
pub type InfoV = Seq<(Seq<char>, InfoFieldV)>;

impl View for TemplateInfo {
    type V = InfoV;

    open spec fn view(&self) -> InfoV {
        self.0@.map_values(|p: (String, InfoField)| (p.0@, p.1@))
    }
}

/// Name for what `Handlebars::render_template` of a new registry gives for
/// `template` with the object `info`: the text, or `None` when it fails.
pub uninterp spec fn rendered(template: Seq<char>, info: InfoV) -> Option<Seq<char>>;

/// A rendering failure of the `handlebars` crate.
#[verifier::external_type_specification]
#[verifier::external_body]
pub struct ExRenderError(handlebars::RenderError);

/// `Registry::render_template` of a new `handlebars` registry, with `info`
/// converted member by member into a JSON object. Claimed: it succeeds exactly
/// when `rendered` gives a text, and then gives that text; rendering depends on
/// the template and the object alone.
#[verifier::external_body]
fn render_template(template: &str, info: &TemplateInfo) -> (r: core::result::Result<String, handlebars::RenderError>)
    ensures
        match rendered(template@, info@) {
            Some(s) => r matches Ok(t) && t@ == s,
            None => r is Err,
        },
{
    let mut obj = serde_json::Map::new();
    for (name, value) in info.0.iter() {
        let v = match value {
            InfoField::Text(s) => serde_json::Value::from(s.as_str()),
            InfoField::Num(n) => serde_json::Value::from(*n),
            InfoField::List(l) => serde_json::Value::from(l.clone()),
        };
        obj.insert(name.clone(), v);
    }
    handlebars::Handlebars::new().render_template(template, &serde_json::Value::Object(obj))
}

/// `ToString::to_string` of a `handlebars` rendering failure: its message.
/// Nothing is stated of the text.
#[verifier::external_body]
fn render_error_text(e: &handlebars::RenderError) -> String {
    e.to_string()
}

/// A rendering failure as an error with its message as the source.
pub fn from_render_error(e: handlebars::RenderError) -> (r: Error)
    ensures
        r matches Error::Others(msgs, src) && msgs@.len() == 0 && src is Some,
{
    Error::Others(Vec::new(), Some(render_error_text(&e)))
}

/// The error of a failed rendering: an `Others` error with the message as its
/// source.
pub open spec fn is_render_err(e: Error) -> bool {
    e matches Error::Others(msgs, src) && msgs@.len() == 0 && src is Some
}

/// Renders `template` with `info`; a failure becomes an error of the crate.
pub fn render(template: &str, info: &TemplateInfo) -> (r: crate::error::Result<String>)
    ensures
        match rendered(template@, info@) {
            Some(s) => r matches Ok(t) && t@ == s,
            None => r matches Err(e) && is_render_err(e),
        },
{
    match render_template(template, info) {
        Ok(s) => Ok(s),
        Err(e) => Err(from_render_error(e)),
    }
}

/// Every template of `ts` rendered with `info`, in order; `None` when one fails.
pub open spec fn rendered_all(ts: Seq<Seq<char>>, info: InfoV) -> Option<Seq<Seq<char>>>
    decreases ts.len(),
{
    if ts.len() == 0 {
        Some(Seq::empty())
    } else {
        match rendered_all(ts.drop_last(), info) {
            None => None,
            Some(v) => match rendered(ts.last(), info) {
                None => None,
                Some(s) => Some(v.push(s)),
            },
        }
    }
}

/// Each variable of `env` with its template rendered with `info`, in order;
/// `None` when one fails.
pub open spec fn rendered_pairs(env: Seq<(Seq<char>, Seq<char>)>, info: InfoV) -> Option<Seq<(Seq<char>, Seq<char>)>>
    decreases env.len(),
{
    if env.len() == 0 {
        Some(Seq::empty())
    } else {
        match rendered_pairs(env.drop_last(), info) {
            None => None,
            Some(v) => match rendered(env.last().1, info) {
                None => None,
                Some(s) => Some(v.push((env.last().0, s))),
            },
        }
    }
}

/// The variables of `env` whose template renders with `info`, with the text, in
/// order; the others are left out.
pub open spec fn rendered_some(env: Seq<(Seq<char>, Seq<char>)>, info: InfoV) -> Seq<(Seq<char>, Seq<char>)>
    decreases env.len(),
{
    if env.len() == 0 {
        Seq::empty()
    } else {
        let prev = rendered_some(env.drop_last(), info);
        match rendered(env.last().1, info) {
            Some(s) => prev.push((env.last().0, s)),
            None => prev,
        }
    }
}

pub proof fn lemma_rendered_all_stops(ts: Seq<Seq<char>>, info: InfoV, k: int, j: int)
    requires
        0 <= k <= j <= ts.len(),
        rendered_all(ts.take(k), info) is None,
    ensures
        rendered_all(ts.take(j), info) is None,
    decreases j - k,
{
    if j > k {
        lemma_rendered_all_stops(ts, info, k, j - 1);
        assert(ts.take(j).drop_last() =~= ts.take(j - 1));
    }
}

pub proof fn lemma_rendered_pairs_stops(env: Seq<(Seq<char>, Seq<char>)>, info: InfoV, k: int, j: int)
    requires
        0 <= k <= j <= env.len(),
        rendered_pairs(env.take(k), info) is None,
    ensures
        rendered_pairs(env.take(j), info) is None,
    decreases j - k,
{
    if j > k {
        lemma_rendered_pairs_stops(env, info, k, j - 1);
        assert(env.take(j).drop_last() =~= env.take(j - 1));
    }
}

} // verus!
