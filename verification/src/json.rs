//! JSON documents as the library reads them: parsed by `serde_json`, held
//! as a plain tree, and looked into as `serde_json::Value` is (`get`, `[]`,
//! `as_str`, `as_array`).

use vstd::prelude::*;

use crate::text::same;

verus! {

broadcast use vstd::std_specs::vec::group_vec_axioms, vstd::seq::group_seq_axioms;

/// A JSON value. Object members come in the order of `serde_json`'s map,
/// one member per key.
pub enum Json {
    Null,
    Bool(bool),
    /// A number, as `serde_json` writes it.
    Num(String),
    Str(String),
    Arr(Vec<Json>),
    Obj(Vec<(String, Json)>),
}

/// The mathematical form of a JSON value.
pub enum JsonView {
    Null,
    Bool(bool),
    Num(Seq<char>),
    Str(Seq<char>),
    Arr(Seq<JsonView>),
    Obj(Seq<(Seq<char>, JsonView)>),
}

pub open spec fn json_view(j: Json) -> JsonView
    decreases j,
{
    match j {
        Json::Null => JsonView::Null,
        Json::Bool(b) => JsonView::Bool(b),
        Json::Num(n) => JsonView::Num(n@),
        Json::Str(s) => JsonView::Str(s@),
        Json::Arr(a) => JsonView::Arr(json_views(a@)),
        Json::Obj(m) => JsonView::Obj(member_views(m@)),
    }
}

pub open spec fn json_views(s: Seq<Json>) -> Seq<JsonView>
    decreases s,
{
    if s.len() == 0 {
        Seq::empty()
    } else {
        json_views(s.subrange(0, s.len() - 1)).push(json_view(s[s.len() - 1]))
    }
}

pub open spec fn member_views(s: Seq<(String, Json)>) -> Seq<(Seq<char>, JsonView)>
    decreases s,
{
    if s.len() == 0 {
        Seq::empty()
    } else {
        member_views(s.subrange(0, s.len() - 1)).push(
            (s[s.len() - 1].0@, json_view(s[s.len() - 1].1)),
        )
    }
}

impl View for Json {
    type V = JsonView;

    open spec fn view(&self) -> JsonView {
        json_view(*self)
    }
}

pub proof fn lemma_json_views(s: Seq<Json>)
    ensures
        json_views(s).len() == s.len(),
        forall|i: int| 0 <= i < s.len() ==> #[trigger] json_views(s)[i] == json_view(s[i]),
    decreases s.len(),
{
    if s.len() > 0 {
        let p = s.subrange(0, s.len() - 1);
        lemma_json_views(p);
        assert forall|i: int| 0 <= i < s.len() implies #[trigger] json_views(s)[i] == json_view(
            s[i],
        ) by {
            if i < s.len() - 1 {
                assert(p[i] == s[i]);
            }
        }
    }
}

pub proof fn lemma_member_views(s: Seq<(String, Json)>)
    ensures
        member_views(s).len() == s.len(),
        forall|i: int|
            0 <= i < s.len() ==> #[trigger] member_views(s)[i] == (s[i].0@, json_view(s[i].1)),
    decreases s.len(),
{
    if s.len() > 0 {
        let p = s.subrange(0, s.len() - 1);
        lemma_member_views(p);
        assert forall|i: int| 0 <= i < s.len() implies #[trigger] member_views(s)[i] == (
            s[i].0@,
            json_view(s[i].1),
        ) by {
            if i < s.len() - 1 {
                assert(p[i] == s[i]);
            }
        }
    }
}

/// What `serde_json::from_str::<serde_json::Value>` makes of `text`: `None`
/// when the text is not JSON, else the value.
pub uninterp spec fn json_parse(text: Seq<char>) -> Option<JsonView>;

pub open spec fn json_opt_view(j: Option<Json>) -> Option<JsonView> {
    match j {
        Some(v) => Some(v@),
        None => None,
    }
}

#[verifier::external_type_specification]
#[verifier::external_body]
pub struct ExJsonValue(serde_json::Value);

/// A `serde_json::Value` as a `Json`, variant for variant, members in the
/// order in which the value's map yields them.
#[verifier::external_body]
fn json_of(v: serde_json::Value) -> Json {
    match v {
        serde_json::Value::Null => Json::Null,
        serde_json::Value::Bool(b) => Json::Bool(b),
        serde_json::Value::Number(n) => Json::Num(n.to_string()),
        serde_json::Value::String(s) => Json::Str(s),
        serde_json::Value::Array(a) => Json::Arr(a.into_iter().map(json_of).collect()),
        serde_json::Value::Object(m) => Json::Obj(m.into_iter().map(|(k, x)| (k, json_of(x))).collect()),
    }
}

/// `text` parsed with `serde_json::from_str` into a `serde_json::Value`;
/// `None` on a syntax error.
#[verifier::external_body]
pub(crate) fn parse_json(text: &str) -> (r: Option<Json>)
    ensures
        json_opt_view(r) == json_parse(text@),
{
    serde_json::from_str::<serde_json::Value>(text).ok().map(json_of)
}

/// The value of the first member named `k`.
pub open spec fn member(m: Seq<(Seq<char>, JsonView)>, k: Seq<char>) -> Option<JsonView>
    decreases m.len(),
{
    if m.len() == 0 {
        None
    } else if m[0].0 == k {
        Some(m[0].1)
    } else {
        member(m.drop_first(), k)
    }
}

/// `Value::get` with a key: the member `k` of an object, `None` for a
/// missing member or a value that is not an object.
pub open spec fn get(v: JsonView, k: Seq<char>) -> Option<JsonView> {
    match v {
        JsonView::Obj(m) => member(m, k),
        _ => None,
    }
}

/// `value[k]`: the member `k`, or `Null`.
pub open spec fn index(v: JsonView, k: Seq<char>) -> JsonView {
    match get(v, k) {
        Some(x) => x,
        None => JsonView::Null,
    }
}

/// `value.as_str().unwrap_or("")`.
pub open spec fn str_or_empty(v: JsonView) -> Seq<char> {
    match v {
        JsonView::Str(s) => s,
        _ => Seq::empty(),
    }
}

/// The member `k` of the value `v`, as `Value::get` finds it.
pub fn json_get<'a>(v: &'a Json, k: &str) -> (r: Option<&'a Json>)
    ensures
        match r {
            Some(x) => get(v@, k@) == Some(x@),
            None => get(v@, k@) is None,
        },
{
    match v {
        Json::Obj(m) => {
            proof {
                lemma_member_views(m@);
            }
            let ghost mv = member_views(m@);
            assert(v@ == JsonView::Obj(mv));
            assert(mv.skip(0) == mv);
            let mut i: usize = 0;
            while i < m.len()
                invariant
                    i <= m@.len(),
                    mv == member_views(m@),
                    v@ == JsonView::Obj(mv),
                    mv.len() == m@.len(),
                    forall|j: int| 0 <= j < m@.len() ==> #[trigger] mv[j] == (m@[j].0@, json_view(m@[j].1)),
                    member(mv, k@) == member(mv.skip(i as int), k@),
                decreases m.len() - i,
            {
                let ghost rest = mv.skip(i as int);
                assert(rest.drop_first() == mv.skip(i + 1));
                assert(rest[0] == mv[i as int]);
                if same(m[i].0.as_str(), k) {
                    assert(mv[i as int] == (m@[i as int].0@, json_view(m@[i as int].1)));
                    assert(member(rest, k@) == Some(json_view(m@[i as int].1)));
                    return Some(&m[i].1);
                }
                i = i + 1;
            }
            assert(mv.skip(i as int).len() == 0);
            None
        },
        _ => None,
    }
}

/// The value a reference stands for, `Null` where there is none.
pub open spec fn ref_view(v: Option<&Json>) -> JsonView {
    match v {
        Some(x) => x@,
        None => JsonView::Null,
    }
}

/// `value[k]`, as `Value`'s index by a key gives it; `None` stands for
/// `Null`.
pub fn json_at<'a>(v: Option<&'a Json>, k: &str) -> (r: Option<&'a Json>)
    ensures
        ref_view(r) == index(ref_view(v), k@),
{
    match v {
        Some(x) => json_get(x, k),
        None => None,
    }
}

/// `value.as_str().unwrap_or("")`.
pub fn json_str(v: Option<&Json>) -> (r: String)
    ensures
        r@ == str_or_empty(ref_view(v)),
{
    match v {
        Some(Json::Str(s)) => s.clone(),
        _ => String::new(),
    }
}

} // verus!
