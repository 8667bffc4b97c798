//! JSON texts, read and written by `serde_json`.

use crate::text::{joined, opt_text, texts};
use vstd::prelude::*;

verus! {

/// The list of strings that `serde_json` reads from a text, where it reads one.
pub uninterp spec fn json_string_array(text: Seq<char>) -> Option<Seq<Seq<char>>>;

/// The text that `serde_json` writes for a list of strings.
pub uninterp spec fn json_array_text(items: Seq<Seq<char>>) -> Seq<char>;

/// The optional list of texts by its characters.
pub open spec fn opt_texts(o: Option<Vec<String>>) -> Option<Seq<Seq<char>>> {
    match o {
        Some(v) => Some(texts(v@)),
        None => None,
    }
}

/// `serde_json::from_str` at `Vec<String>`: a function of the text alone. It gives `None`
/// where the text is not a JSON array of strings.
#[verifier::external_body]
pub(crate) fn read_string_array(text: &str) -> (r: Option<Vec<String>>)
    ensures
        opt_texts(r) == json_string_array(text@),
{
    serde_json::from_str::<Vec<String>>(text).ok()
}

/// `serde_json::to_string` at `Vec<String>`: a function of the strings alone. It does not
/// fail on strings, and reading the text gives the strings back.
#[verifier::external_body]
pub(crate) fn write_string_array(items: &Vec<String>) -> (r: String)
    ensures
        r@ == json_array_text(texts(items@)),
        json_string_array(r@) == Some(texts(items@)),
{
    serde_json::to_string(items).unwrap_or_default()
}

/// What stands under a name in a JSON object.
pub enum Member {
    Null,
    Number(i64),
    Count(u64),
    Text(String),
    Texts(Vec<String>),
}

/// What a [`Member`] says. A number is the same number, whatever type held it.
pub enum MemberView {
    Null,
    Number(int),
    Text(Seq<char>),
    Texts(Seq<Seq<char>>),
}

impl View for Member {
    type V = MemberView;

    open spec fn view(&self) -> MemberView {
        match self {
            Member::Null => MemberView::Null,
            Member::Number(n) => MemberView::Number(*n as int),
            Member::Count(n) => MemberView::Number(*n as int),
            Member::Text(s) => MemberView::Text(s@),
            Member::Texts(v) => MemberView::Texts(texts(v@)),
        }
    }
}

/// Named members by what they say.
pub open spec fn member_views(members: Seq<(String, Member)>) -> Seq<(Seq<char>, MemberView)> {
    members.map_values(|m: (String, Member)| (m.0@, m.1@))
}

/// Lists of named members by what they say.
pub open spec fn object_views(objects: Seq<Vec<(String, Member)>>) -> Seq<
    Seq<(Seq<char>, MemberView)>,
> {
    objects.map_values(|o: Vec<(String, Member)>| member_views(o@))
}

/// The text that `serde_json` writes for an object with the given members.
pub uninterp spec fn json_object_text(members: Seq<(Seq<char>, MemberView)>) -> Seq<char>;

/// The text of an array of objects with the given members: the texts of the objects, with
/// commas between, in square brackets.
pub open spec fn objects_text(objects: Seq<Seq<(Seq<char>, MemberView)>>) -> Seq<char> {
    "["@ + joined(
        objects.map_values(|o: Seq<(Seq<char>, MemberView)>| json_object_text(o)),
        ","@,
    ) + "]"@
}

/// `serde_json::Value` collected from named members, and its `to_string`: a function of the
/// names and of what stands under each of them.
#[verifier::external_body]
pub(crate) fn write_object(members: Vec<(String, Member)>) -> (r: String)
    ensures
        r@ == json_object_text(member_views(members@)),
{
    serde_json::Value::from_iter(members.into_iter().map(|(name, member)| match member {
        Member::Null => (name, serde_json::Value::Null),
        Member::Number(n) => (name, n.into()),
        Member::Count(n) => (name, n.into()),
        Member::Text(s) => (name, s.into()),
        Member::Texts(v) => (name, v.into()),
    })).to_string()
}

/// `serde_json::to_string` at a list of objects, each collected from named members. It does not
/// fail on such values, and writes the text of each object as `to_string` of the object does,
/// with commas between and in square brackets.
#[verifier::external_body]
pub(crate) fn write_objects(objects: Vec<Vec<(String, Member)>>) -> (r: String)
    ensures
        r@ == objects_text(object_views(objects@)),
{
    let list: Vec<serde_json::Value> = objects.into_iter().map(|o| o.into_iter().map(
        |(name, member)| match member {
            Member::Null => (name, serde_json::Value::Null),
            Member::Number(n) => (name, n.into()),
            Member::Count(n) => (name, n.into()),
            Member::Text(s) => (name, s.into()),
            Member::Texts(v) => (name, v.into()),
        },
    ).collect()).collect();
    serde_json::to_string(&list).unwrap_or_default()
}

/// The text under a name, or nothing.
pub open spec fn text_or_null(o: Option<Seq<char>>) -> MemberView {
    match o {
        Some(s) => MemberView::Text(s),
        None => MemberView::Null,
    }
}

/// The number under a name, or nothing.
pub open spec fn number_or_null(o: Option<i64>) -> MemberView {
    match o {
        Some(n) => MemberView::Number(n as int),
        None => MemberView::Null,
    }
}

/// The text under a name, or nothing.
pub fn opt_text_member(o: &Option<String>) -> (r: Member)
    ensures
        r@ == text_or_null(opt_text(*o)),
{
    match o {
        Some(s) => Member::Text(s.clone()),
        None => Member::Null,
    }
}

/// The number under a name, or nothing.
pub fn opt_number_member(o: Option<i64>) -> (r: Member)
    ensures
        r@ == number_or_null(o),
{
    match o {
        Some(n) => Member::Number(n),
        None => Member::Null,
    }
}

/// The texts under a name.
pub fn texts_member(list: &Vec<String>) -> (r: Member)
    ensures
        r@ == MemberView::Texts(texts(list@)),
{
    let mut out: Vec<String> = Vec::new();
    let mut i: usize = 0;
    while i < list.len()
        invariant
            i <= list@.len(),
            out@.len() == i,
            forall|k: int| 0 <= k < i ==> (#[trigger] out@[k])@ == list@[k]@,
        decreases list@.len() - i,
    {
        out.push(list[i].clone());
        i += 1;
    }
    assert(texts(out@) =~= texts(list@));
    Member::Texts(out)
}

/// The strings that a text lists, none where it is not a JSON array of strings.
pub open spec fn listed(text: Seq<char>) -> Seq<Seq<char>> {
    match json_string_array(text) {
        Some(v) => v,
        None => Seq::empty(),
    }
}

/// The strings that a text lists, none where it is not a JSON array of strings.
pub fn parse_json_array(text: &str) -> (r: Vec<String>)
    ensures
        texts(r@) == listed(text@),
{
    match read_string_array(text) {
        Some(v) => v,
        None => {
            let none: Vec<String> = Vec::new();
            assert(texts(none@) =~= Seq::empty());
            none
        },
    }
}

/// The text of a list of objects holds their texts in order, with commas between and in square
/// brackets.
pub proof fn law_objects_text(
    list: Seq<Seq<(Seq<char>, MemberView)>>,
    o: Seq<(Seq<char>, MemberView)>,
)
    ensures
        objects_text(Seq::empty()) == "["@ + "]"@,
        objects_text(seq![o]) == "["@ + json_object_text(o) + "]"@,
        list.len() > 0 ==> objects_text(list.push(o)) == objects_text(list).drop_last() + ","@
            + json_object_text(o) + "]"@,
{
    let f = |o: Seq<(Seq<char>, MemberView)>| json_object_text(o);
    reveal_strlit("[");
    reveal_strlit("]");
    assert("]"@ =~= seq![']']);
    let none = Seq::<Seq<(Seq<char>, MemberView)>>::empty();
    assert(none.map_values(f) =~= Seq::empty());
    assert("["@ + Seq::<char>::empty() =~= "["@);
    assert(seq![o].map_values(f) =~= seq![json_object_text(o)]);
    assert(list.push(o).map_values(f) =~= list.map_values(f).push(json_object_text(o)));
    crate::text::law_joined(list.map_values(f), json_object_text(o), ","@);
    let text = joined(list.map_values(f), ","@);
    assert(objects_text(list).drop_last() =~= "["@ + text);
    assert("["@ + (text + ","@ + json_object_text(o)) + "]"@ =~= "["@ + text + ","@
        + json_object_text(o) + "]"@);
}

/// A text that lists no strings lists none, and one that was written lists what was written.
pub proof fn law_listed(text: Seq<char>, items: Seq<Seq<char>>)
    ensures
        json_string_array(text) is None ==> listed(text).len() == 0,
        json_string_array(text) == Some(items) ==> listed(text) == items,
        text_or_null(Some(text)) == MemberView::Text(text),
        text_or_null(None) is Null,
        forall|n: i64| #[trigger] number_or_null(Some(n)) == MemberView::Number(n as int),
        number_or_null(None) is Null,
{
}

} // verus!
