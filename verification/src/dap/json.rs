//! Values of messages.
use vstd::prelude::*;

use crate::debug::formatters::scalar::{Rendered, RenderedModel};
use crate::text::{own, same};

verus! {

broadcast use vstd::seq_lib::group_seq_properties;

/// A value of a message.
#[derive(Debug)]
pub enum Json {
    Null,
    Bool(bool),
    /// A whole number.
    Int(i128),
    /// A number that is not whole.
    Real,
    Text(String),
    /// The text of a floating-point number, given by the number's bits.
    Float32(u32),
    Float64(u64),
    List(Vec<Json>),
    Object(Vec<(String, Json)>),
}

/// The mathematical value of a [`Json`].
pub enum JsonModel {
    Null,
    Bool(bool),
    Int(int),
    Real,
    Text(Seq<char>),
    Float32(u32),
    Float64(u64),
    List(Seq<JsonModel>),
    Object(Seq<(Seq<char>, JsonModel)>),
}

/// The value of a [`Json`].
pub open spec fn json_model(j: Json) -> JsonModel
    decreases j,
{
    match j {
        Json::Null => JsonModel::Null,
        Json::Bool(b) => JsonModel::Bool(b),
        Json::Int(i) => JsonModel::Int(i as int),
        Json::Real => JsonModel::Real,
        Json::Text(t) => JsonModel::Text(t@),
        Json::Float32(b) => JsonModel::Float32(b),
        Json::Float64(b) => JsonModel::Float64(b),
        Json::List(v) => JsonModel::List(list_model(v@)),
        Json::Object(v) => JsonModel::Object(object_model(v@)),
    }
}

/// The values of a list.
pub open spec fn list_model(v: Seq<Json>) -> Seq<JsonModel>
    decreases v,
{
    if v.len() == 0 {
        seq![]
    } else {
        list_model(v.drop_last()).push(json_model(v[v.len() - 1]))
    }
}

/// The values of an object.
pub open spec fn object_model(v: Seq<(String, Json)>) -> Seq<(Seq<char>, JsonModel)>
    decreases v,
{
    if v.len() == 0 {
        seq![]
    } else {
        object_model(v.drop_last()).push((v[v.len() - 1].0@, json_model(v[v.len() - 1].1)))
    }
}

impl View for Json {
    type V = JsonModel;

    open spec fn view(&self) -> JsonModel {
        json_model(*self)
    }
}


proof fn list_items(v: Seq<Json>)
    ensures
        list_model(v).len() == v.len(),
        forall|i: int| 0 <= i < v.len() ==> list_model(v)[i] == json_model(#[trigger] v[i]),
    decreases v.len(),
{
    if v.len() > 0 {
        list_items(v.drop_last());
        assert forall|i: int| 0 <= i < v.len() implies list_model(v)[i] == json_model(
            #[trigger] v[i],
        ) by {
            if i < v.len() - 1 {
                assert(v.drop_last()[i] == v[i]);
            }
        }
    }
}

proof fn object_items(v: Seq<(String, Json)>)
    ensures
        object_model(v).len() == v.len(),
        forall|i: int|
            0 <= i < v.len() ==> object_model(v)[i] == ((#[trigger] v[i]).0@, json_model(v[i].1)),
    decreases v.len(),
{
    if v.len() > 0 {
        object_items(v.drop_last());
        assert forall|i: int| 0 <= i < v.len() implies object_model(v)[i] == (
            (#[trigger] v[i]).0@,
            json_model(v[i].1),
        ) by {
            if i < v.len() - 1 {
                assert(v.drop_last()[i] == v[i]);
            }
        }
    }
}

// ---------------------------------------------------------------------------
// Reading values
// ---------------------------------------------------------------------------

/// The first of the members that is called `name`.
pub open spec fn member_from(all: Seq<(Seq<char>, JsonModel)>, name: Seq<char>) -> Option<JsonModel>
    decreases all.len(),
{
    if all.len() == 0 {
        None
    } else if all[0].0 == name {
        Some(all[0].1)
    } else {
        member_from(all.skip(1), name)
    }
}

/// The member called `name`.
pub open spec fn member(j: JsonModel, name: Seq<char>) -> Option<JsonModel> {
    match j {
        JsonModel::Object(all) => member_from(all, name),
        _ => None,
    }
}

/// A whole number that fits 64 bits with its sign.
pub open spec fn int_of(j: JsonModel) -> Option<i64> {
    match j {
        JsonModel::Int(i) => if i64::MIN <= i <= i64::MAX {
            Some(i as i64)
        } else {
            None
        },
        _ => None,
    }
}

/// A text.
pub open spec fn str_of(j: JsonModel) -> Option<Seq<char>> {
    match j {
        JsonModel::Text(t) => Some(t),
        _ => None,
    }
}

impl Json {
    /// The member called `name`.
    pub fn get(&self, name: &str) -> (r: Option<&Json>)
        ensures
            match r {
                Some(j) => member(self@, name@) == Some(j@),
                None => member(self@, name@) is None,
            },
    {
        match self {
            Json::Object(v) => {
                let ghost all = object_model(v@);
                proof {
                    object_items(v@);
                }
                let mut i: usize = 0;
                assert(all.skip(0) =~= all);
                while i < v.len()
                    invariant
                        self@ == JsonModel::Object(all),
                        all == object_model(v@),
                        all.len() == v@.len(),
                        forall|k: int|
                            0 <= k < v@.len() ==> all[k] == (
                                (#[trigger] v@[k]).0@,
                                json_model(v@[k].1),
                            ),
                        i <= all.len(),
                        member_from(all, name@) == member_from(all.skip(i as int), name@),
                    decreases all.len() - i,
                {
                    assert(all.skip(i as int)[0] == all[i as int]);
                    assert(all.skip(i as int).skip(1) =~= all.skip(i + 1));
                    let item = &v[i];
                    assert(all[i as int] == (v@[i as int].0@, json_model(v@[i as int].1)));
                    if same(item.0.as_str(), name) {
                        return Some(&item.1);
                    }
                    i = i + 1;
                }
                None
            },
            _ => None,
        }
    }

    /// A whole number that fits 64 bits with its sign.
    pub fn as_i64(&self) -> (r: Option<i64>)
        ensures
            r == int_of(self@),
    {
        match self {
            Json::Int(i) => if *i >= i64::MIN as i128 && *i <= i64::MAX as i128 {
                Some(*i as i64)
            } else {
                None
            },
            _ => None,
        }
    }

    /// A text.
    pub fn as_str(&self) -> (r: Option<&String>)
        ensures
            match r {
                Some(t) => str_of(self@) == Some(t@),
                None => str_of(self@) is None,
            },
    {
        match self {
            Json::Text(t) => Some(t),
            _ => None,
        }
    }

    /// Whether this is no value.
    pub fn is_null(&self) -> (r: bool)
        ensures
            r == (self@ is Null),
    {
        match self {
            Json::Null => true,
            _ => false,
        }
    }
}

/// The lines that a list of breakpoints asks for.
pub open spec fn lines_among(all: Seq<JsonModel>) -> Seq<i64>
    decreases all.len(),
{
    if all.len() == 0 {
        seq![]
    } else {
        let before = lines_among(all.drop_last());
        match member(all.last(), "line"@) {
            Some(l) => match int_of(l) {
                Some(line) => before.push(line),
                None => before,
            },
            None => before,
        }
    }
}

/// The lines that the member `breakpoints` asks for.
pub open spec fn requested_lines(args: JsonModel) -> Seq<i64> {
    match member(args, "breakpoints"@) {
        Some(JsonModel::List(all)) => lines_among(all),
        _ => seq![],
    }
}

/// The lines that the member `breakpoints` asks for.
pub fn breakpoint_lines(args: &Json) -> (r: Vec<i64>)
    ensures
        r@ == requested_lines(args@),
{
    let mut lines: Vec<i64> = Vec::new();
    assert(lines@ =~= seq![]);
    if let Some(Json::List(v)) = args.get("breakpoints") {
        let ghost all = list_model(v@);
        proof {
            list_items(v@);
        }
        let mut i: usize = 0;
        assert(all.take(0) =~= seq![]);
        while i < v.len()
            invariant
                all == list_model(v@),
                all.len() == v@.len(),
                forall|k: int| 0 <= k < v@.len() ==> all[k] == json_model(#[trigger] v@[k]),
                i <= all.len(),
                lines@ == lines_among(all.take(i as int)),
            decreases all.len() - i,
        {
            assert(all.take(i + 1).drop_last() =~= all.take(i as int));
            assert(all.take(i + 1).last() == all[i as int]);
            let item = &v[i];
            assert(all[i as int] == item@);
            if let Some(l) = item.get("line") {
                if let Some(line) = l.as_i64() {
                    lines.push(line);
                }
            }
            i = i + 1;
        }
        assert(all.take(all.len() as int) =~= all);
    }
    lines
}

/// The path that the member `source` names, empty where it names none.
pub open spec fn requested_source(args: JsonModel) -> Seq<char> {
    match member(args, "source"@) {
        Some(s) => match member(s, "path"@) {
            Some(p) => match str_of(p) {
                Some(t) => t,
                None => seq![],
            },
            None => seq![],
        },
        None => seq![],
    }
}

/// The path that the member `source` names.
pub fn source_path(args: &Json) -> (r: String)
    ensures
        r@ == requested_source(args@),
{
    if let Some(s) = args.get("source") {
        if let Some(p) = s.get("path") {
            if let Some(t) = p.as_str() {
                return own(t.as_str());
            }
        }
    }
    let none = String::new();
    assert(none@ =~= seq![]);
    none
}

/// The whole number that a member is, 0 where it is none.
pub open spec fn requested_int(args: JsonModel, name: Seq<char>) -> i64 {
    match member(args, name) {
        Some(v) => match int_of(v) {
            Some(i) => i,
            None => 0,
        },
        None => 0,
    }
}

/// The whole number that a member is.
pub fn int_member(args: &Json, name: &str) -> (r: i64)
    ensures
        r == requested_int(args@, name@),
{
    match args.get(name) {
        Some(v) => match v.as_i64() {
            Some(i) => i,
            None => 0,
        },
        None => 0,
    }
}

// ---------------------------------------------------------------------------
// Making values
// ---------------------------------------------------------------------------

/// A text.
pub fn text(s: &str) -> (r: Json)
    ensures
        r@ == JsonModel::Text(s@),
{
    Json::Text(own(s))
}

/// A list of values.
pub fn list(v: Vec<Json>) -> (r: Json)
    ensures
        r@ == JsonModel::List(list_model(v@)),
{
    Json::List(v)
}

/// What is shown of a value, as the value of a message.
pub open spec fn rendered_json(r: RenderedModel) -> JsonModel {
    match r {
        RenderedModel::Text(t) => JsonModel::Text(t),
        RenderedModel::Float32(b) => JsonModel::Float32(b),
        RenderedModel::Float64(b) => JsonModel::Float64(b),
    }
}

/// What is shown of a value, as the value of a message.
pub fn rendered(r: Rendered) -> (j: Json)
    ensures
        j@ == rendered_json(r@),
{
    match r {
        Rendered::Text(t) => Json::Text(t),
        Rendered::Float32(b) => Json::Float32(b),
        Rendered::Float64(b) => Json::Float64(b),
    }
}

/// An object that is being put together.
pub struct Members {
    all: Vec<(String, Json)>,
}

impl View for Members {
    type V = Seq<(Seq<char>, JsonModel)>;

    closed spec fn view(&self) -> Seq<(Seq<char>, JsonModel)> {
        object_model(self.all@)
    }
}

impl Members {
    /// No members.
    pub fn new() -> (r: Self)
        ensures
            r@ == Seq::<(Seq<char>, JsonModel)>::empty(),
    {
        Members { all: Vec::new() }
    }

    /// The members with one more.
    pub fn with(self, name: &str, value: Json) -> (r: Self)
        ensures
            r@ == self@.push((name@, value@)),
    {
        let mut all = self.all;
        let ghost before = all@;
        all.push((own(name), value));
        assert(all@.drop_last() =~= before);
        Members { all }
    }

    /// The object that has these members.
    pub fn object(self) -> (r: Json)
        ensures
            r@ == JsonModel::Object(self@),
    {
        Json::Object(self.all)
    }
}

/// Pushes a value to a list of values.
pub fn push_item(v: &mut Vec<Json>, item: Json)
    ensures
        list_model(final(v)@) == list_model(old(v)@).push(item@),
{
    let ghost before = v@;
    v.push(item);
    assert(v@.drop_last() =~= before);
}

} // verus!
