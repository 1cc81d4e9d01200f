//! JSON templates: a JSON value in which some positions are placeholders,
//! found once when the template is read and overwritten on every expansion.
use vstd::prelude::*;
use vstd::string::*;
use crate::json::{
    items_view, json_document, lemma_array_view, lemma_object_view, members_view, normal_form,
    to_serde, Json, JsonValue, Member,
};
use indexmap::IndexMap;
use crate::ordered::{distinct_keys, position_from, position_of, value_of};
use crate::text::{chars_of, join2, join3, str_eq};

verus! {

/// One step from a JSON value to one of its children: the position of an
/// item in an array, or the position of a member in an object.
#[derive(Clone, Copy, Debug, PartialEq, Eq, Structural)]
pub enum Step {
    Index(usize),
    Field(usize),
}

/// The model of a [`Step`].
pub enum StepModel {
    Index(nat),
    Field(nat),
}

impl View for Step {
    type V = StepModel;

    open spec fn view(&self) -> StepModel {
        match self {
            Step::Index(i) => StepModel::Index(*i as nat),
            Step::Field(i) => StepModel::Field(*i as nat),
        }
    }
}

/// The models of a list of steps, in order.
pub open spec fn steps_view(steps: Seq<Step>) -> Seq<StepModel> {
    Seq::new(steps.len(), |i: int| steps[i]@)
}

/// What stands at a placeholder position.
#[derive(Clone, Debug, PartialEq, Eq)]
pub enum PlaceholderLeaf {
    /// The string `$name` stood here; the name is held without the `$`.
    Value(String),
    /// An object of one member, named by the text placeholder, stood here;
    /// the member's string is held as the source of a text template.
    Text(String),
}

/// The model of a [`PlaceholderLeaf`].
pub enum LeafModel {
    Value(Seq<char>),
    Text(Seq<char>),
}

impl View for PlaceholderLeaf {
    type V = LeafModel;

    open spec fn view(&self) -> LeafModel {
        match self {
            PlaceholderLeaf::Value(name) => LeafModel::Value(name@),
            PlaceholderLeaf::Text(source) => LeafModel::Text(source@),
        }
    }
}

/// The way from the root of a template to one placeholder.
#[derive(Clone, Debug, PartialEq, Eq)]
pub struct PlaceholderPath {
    pub steps: Vec<Step>,
    pub leaf: PlaceholderLeaf,
}

/// The model of a [`PlaceholderPath`].
pub struct PathModel {
    pub steps: Seq<StepModel>,
    pub leaf: LeafModel,
}

impl View for PlaceholderPath {
    type V = PathModel;

    open spec fn view(&self) -> PathModel {
        PathModel { steps: steps_view(self.steps@), leaf: self.leaf@ }
    }
}

/// The models of a list of paths, in order.
pub open spec fn paths_view(paths: Seq<PlaceholderPath>) -> Seq<PathModel> {
    Seq::new(paths.len(), |i: int| paths[i]@)
}

/// The character sequences of a list of strings, in order.
pub open spec fn names_view(names: Seq<String>) -> Seq<Seq<char>> {
    Seq::new(names.len(), |i: int| names[i]@)
}

/// A letter of the ASCII alphabet or an underscore.
pub open spec fn is_name_start(c: char) -> bool {
    ('a' <= c && c <= 'z') || ('A' <= c && c <= 'Z') || c == '_'
}

/// A letter or digit of ASCII, or an underscore.
pub open spec fn is_name_part(c: char) -> bool {
    is_name_start(c) || ('0' <= c && c <= '9')
}

/// A placeholder name is well formed when it is not empty, starts with a
/// letter or an underscore and goes on with letters, digits and underscores.
pub open spec fn is_placeholder_name(name: Seq<char>) -> bool {
    &&& name.len() > 0
    &&& is_name_start(name[0])
    &&& forall|i: int| 1 <= i < name.len() ==> is_name_part(#[trigger] name[i])
}

/// Why `name` cannot be taken as a placeholder name after the names
/// `earlier`, if it cannot: the message of the first rule that it breaks.
pub open spec fn name_fault(name: Seq<char>, earlier: Seq<Seq<char>>) -> Option<Seq<char>> {
    if name.len() == 0 {
        Some("placeholder name cannot be empty"@)
    } else if !is_placeholder_name(name) {
        Some("invalid placeholder name: `"@ + name + "`"@)
    } else if earlier.contains(name) {
        Some("duplicated placeholder name: `"@ + name + "`"@)
    } else {
        None
    }
}

/// The fault of the first of the first `n` names that has one, each name
/// held against the names before it.
pub open spec fn names_fault(names: Seq<Seq<char>>, n: nat) -> Option<Seq<char>>
    recommends
        n <= names.len(),
    decreases n,
{
    if n == 0 {
        None
    } else {
        match names_fault(names, (n - 1) as nat) {
            Some(fault) => Some(fault),
            None => name_fault(names[n - 1], names.subrange(0, n - 1)),
        }
    }
}

/// Whether `j` is a text placeholder: an object whose only member is named
/// `text_key` and holds a string.
pub open spec fn is_text_leaf(j: JsonValue, text_key: Seq<char>) -> bool {
    &&& j is Object
    &&& j->Object_0.len() == 1
    &&& j->Object_0[0].0 == text_key
    &&& j->Object_0[0].1 is Str
}

/// Whether `j` is a value placeholder: a string made of `$` and one of the
/// declared names.
pub open spec fn is_value_leaf(j: JsonValue, names: Seq<Seq<char>>) -> bool {
    &&& j is Str
    &&& j->Str_0.len() > 0
    &&& j->Str_0[0] == '$'
    &&& names.contains(j->Str_0.subrange(1, j->Str_0.len() as int))
}

/// `paths`, each with `step` put in front.
pub open spec fn prefixed(step: StepModel, paths: Seq<PathModel>) -> Seq<PathModel> {
    Seq::new(
        paths.len(),
        |k: int| PathModel { steps: seq![step] + paths[k].steps, leaf: paths[k].leaf },
    )
}

/// The placeholders of `j`, in the order of a walk that visits the items
/// of an array and the members of an object from first to last. A text
/// placeholder is not walked into.
pub open spec fn placeholders(j: JsonValue, names: Seq<Seq<char>>, text_key: Seq<char>) -> Seq<
    PathModel,
>
    decreases j, 0nat,
{
    if is_text_leaf(j, text_key) {
        seq![PathModel { steps: Seq::empty(), leaf: LeafModel::Text(j->Object_0[0].1->Str_0) }]
    } else if is_value_leaf(j, names) {
        seq![
            PathModel {
                steps: Seq::empty(),
                leaf: LeafModel::Value(j->Str_0.subrange(1, j->Str_0.len() as int)),
            },
        ]
    } else {
        match j {
            JsonValue::Array(items) => item_placeholders(items, items.len(), names, text_key),
            JsonValue::Object(members) => member_placeholders(
                members,
                members.len(),
                names,
                text_key,
            ),
            _ => Seq::empty(),
        }
    }
}

/// The placeholders under the first `n` items of an array.
pub open spec fn item_placeholders(
    items: Seq<JsonValue>,
    n: nat,
    names: Seq<Seq<char>>,
    text_key: Seq<char>,
) -> Seq<PathModel>
    decreases items, n,
{
    if n == 0 || n > items.len() {
        Seq::empty()
    } else {
        item_placeholders(items, (n - 1) as nat, names, text_key) + prefixed(
            StepModel::Index((n - 1) as nat),
            placeholders(items[n - 1], names, text_key),
        )
    }
}

/// The placeholders under the first `n` members of an object.
pub open spec fn member_placeholders(
    members: Seq<(Seq<char>, JsonValue)>,
    n: nat,
    names: Seq<Seq<char>>,
    text_key: Seq<char>,
) -> Seq<PathModel>
    decreases members, n,
{
    if n == 0 || n > members.len() {
        Seq::empty()
    } else {
        member_placeholders(members, (n - 1) as nat, names, text_key) + prefixed(
            StepModel::Field((n - 1) as nat),
            placeholders(members[n - 1].1, names, text_key),
        )
    }
}

/// `paths`, each with the steps `prefix` put in front.
pub open spec fn with_prefix(prefix: Seq<StepModel>, paths: Seq<PathModel>) -> Seq<PathModel> {
    Seq::new(
        paths.len(),
        |k: int| PathModel { steps: prefix + paths[k].steps, leaf: paths[k].leaf },
    )
}

proof fn lemma_with_prefix_step(
    prefix: Seq<StepModel>,
    step: StepModel,
    a: Seq<PathModel>, b: Seq<PathModel>)
    ensures
        with_prefix(prefix, a + prefixed(step, b)) == with_prefix(prefix, a) + with_prefix(
            prefix.push(step),
            b,
        ),
{
    let lhs = with_prefix(prefix, a + prefixed(step, b));
    let rhs = with_prefix(prefix, a) + with_prefix(prefix.push(step), b);
    assert(lhs.len() == rhs.len());
    assert forall|k: int| 0 <= k < lhs.len() implies lhs[k] == rhs[k] by {
        if k >= a.len() {
            let q = b[k - a.len()];
            assert((a + prefixed(step, b))[k] == prefixed(step, b)[k - a.len()]);
            assert(prefix + (seq![step] + q.steps) =~= prefix.push(step) + q.steps);
        } else {
            assert((a + prefixed(step, b))[k] == a[k]);
        }
    }
    assert(lhs =~= rhs);
}

proof fn lemma_with_empty_prefix(paths: Seq<PathModel>)
    ensures
        with_prefix(Seq::<StepModel>::empty(), paths) == paths,
{
    let lhs = with_prefix(Seq::<StepModel>::empty(), paths);
    assert forall|k: int| 0 <= k < paths.len() implies lhs[k] == paths[k] by {
        assert(Seq::<StepModel>::empty() + paths[k].steps =~= paths[k].steps);
    }
    assert(lhs =~= paths);
}

proof fn lemma_paths_view_concat(a: Seq<PlaceholderPath>, b: Seq<PlaceholderPath>)
    ensures
        paths_view(a + b) == paths_view(a) + paths_view(b),
{
    assert(paths_view(a + b) =~= paths_view(a) + paths_view(b));
}

/// Whether `candidate` is one of `names`.
fn is_declared(names: &Vec<String>, candidate: &str) -> (r: bool)
    ensures
        r == names_view(names@).contains(candidate@),
{
    let mut i: usize = 0;
    while i < names.len()
        invariant
            i <= names.len(),
            forall|k: int| 0 <= k < i ==> names_view(names@)[k] != candidate@,
        decreases names.len() - i,
    {
        if str_eq(names[i].as_str(), candidate) {
            assert(names_view(names@)[i as int] == candidate@);
            return true;
        }
        i += 1;
    }
    false
}

/// Whether `c` may start a placeholder name.
fn char_is_name_start(c: char) -> (r: bool)
    ensures
        r == is_name_start(c),
{
    ('a' <= c && c <= 'z') || ('A' <= c && c <= 'Z') || c == '_'
}

/// Whether `c` may stand inside a placeholder name.
fn char_is_name_part(c: char) -> (r: bool)
    ensures
        r == is_name_part(c),
{
    char_is_name_start(c) || ('0' <= c && c <= '9')
}

/// Whether `name` is a well-formed placeholder name.
fn check_placeholder_name(name: &str) -> (r: bool)
    ensures
        r == is_placeholder_name(name@),
{
    let chars = chars_of(name);
    if chars.len() == 0 {
        return false;
    }
    if !char_is_name_start(chars[0]) {
        return false;
    }
    let mut i: usize = 1;
    while i < chars.len()
        invariant
            1 <= i <= chars.len(),
            chars@ == name@,
            forall|k: int| 1 <= k < i ==> is_name_part(#[trigger] name@[k]),
        decreases chars.len() - i,
    {
        if !char_is_name_part(chars[i]) {
            return false;
        }
        i += 1;
    }
    true
}

/// A text template's source and the place where it stands.
fn text_leaf_source(template: &Json, text_key: &str) -> (r: Option<String>)
    ensures
        match r {
            Some(source) => is_text_leaf(template@, text_key@) && template@->Object_0[0].1
                == JsonValue::Str(source@),
            None => !is_text_leaf(template@, text_key@),
        },
{
    match template {
        Json::Object(members) => {
            proof {
                lemma_object_view(*members);
            }
            if members.len() == 1 && str_eq(members[0].name.as_str(), text_key) {
                match &members[0].value {
                    Json::Str(source) => Some(source.clone()),
                    _ => None,
                }
            } else {
                None
            }
        },
        _ => None,
    }
}

/// The name that a value placeholder stands for, if `template` is one.
fn value_leaf_name(template: &Json, names: &Vec<String>) -> (r: Option<String>)
    ensures
        match r {
            Some(name) => is_value_leaf(template@, names_view(names@)) && name@
                == template@->Str_0.subrange(1, template@->Str_0.len() as int),
            None => !is_value_leaf(template@, names_view(names@)),
        },
{
    match template {
        Json::Str(s) => {
            let n: usize = s.as_str().unicode_len();
            if n == 0 {
                return None;
            }
            if s.as_str().get_char(0) != '$' {
                return None;
            }
            let tail: &str = s.as_str().substring_char(1, n);
            if is_declared(names, tail) {
                Some(tail.to_owned())
            } else {
                None
            }
        },
        _ => None,
    }
}

/// Finds the placeholders of `template`. Each path starts with `prefix`,
/// the steps that lead to `template` from the root.
fn traverse(template: &Json, names: &Vec<String>, text_key: &str, prefix: &Vec<Step>) -> (r: Vec<
    PlaceholderPath,
>)
    ensures
        paths_view(r@) == with_prefix(
            steps_view(prefix@),
            placeholders(template@, names_view(names@), text_key@),
        ),
    decreases template,
{
    let ghost nv = names_view(names@);
    let ghost tk = text_key@;
    if let Some(source) = text_leaf_source(template, text_key) {
        let mut out: Vec<PlaceholderPath> = Vec::new();
        out.push(PlaceholderPath { steps: prefix.clone(), leaf: PlaceholderLeaf::Text(source) });
        proof {
            let want = with_prefix(steps_view(prefix@), placeholders(template@, nv, tk));
            assert(steps_view(prefix@) + Seq::<StepModel>::empty() =~= steps_view(prefix@));
            assert(paths_view(out@) =~= want);
        }
        return out;
    }
    if let Some(name) = value_leaf_name(template, names) {
        let mut out: Vec<PlaceholderPath> = Vec::new();
        out.push(PlaceholderPath { steps: prefix.clone(), leaf: PlaceholderLeaf::Value(name) });
        proof {
            let want = with_prefix(steps_view(prefix@), placeholders(template@, nv, tk));
            assert(steps_view(prefix@) + Seq::<StepModel>::empty() =~= steps_view(prefix@));
            assert(paths_view(out@) =~= want);
        }
        return out;
    }
    match template {
        Json::Array(items) => {
            proof {
                lemma_array_view(*items);
            }
            let mut out: Vec<PlaceholderPath> = Vec::new();
            let mut i: usize = 0;
            assert(paths_view(out@) =~= with_prefix(
                steps_view(prefix@),
                item_placeholders(items_view(items@), 0, nv, tk),
            ));
            while i < items.len()
                invariant
                    *template == Json::Array(*items),
                    nv == names_view(names@),
                    tk == text_key@,
                    i <= items.len(),
                    paths_view(out@) == with_prefix(
                        steps_view(prefix@),
                        item_placeholders(items_view(items@), i as nat, nv, tk),
                    ),
                decreases items.len() - i,
            {
                let mut child_prefix: Vec<Step> = prefix.clone();
                child_prefix.push(Step::Index(i));
                assert(steps_view(child_prefix@) =~= steps_view(prefix@).push(
                    StepModel::Index(i as nat),
                ));
                assert(decreases_to!(*template => template->Array_0[i as int]));
                let mut sub = traverse(&items[i], names, text_key, &child_prefix);
                proof {
                    lemma_paths_view_concat(out@, sub@);
                    lemma_with_prefix_step(
                        steps_view(prefix@),
                        StepModel::Index(i as nat),
                        item_placeholders(items_view(items@), i as nat, nv, tk),
                        placeholders(items[i as int]@, nv, tk),
                    );
                }
                out.append(&mut sub);
                i += 1;
            }
            out
        },
        Json::Object(members) => {
            proof {
                lemma_object_view(*members);
            }
            let mut out: Vec<PlaceholderPath> = Vec::new();
            let mut i: usize = 0;
            assert(paths_view(out@) =~= with_prefix(
                steps_view(prefix@),
                member_placeholders(members_view(members@), 0, nv, tk),
            ));
            while i < members.len()
                invariant
                    *template == Json::Object(*members),
                    nv == names_view(names@),
                    tk == text_key@,
                    i <= members.len(),
                    paths_view(out@) == with_prefix(
                        steps_view(prefix@),
                        member_placeholders(members_view(members@), i as nat, nv, tk),
                    ),
                decreases members.len() - i,
            {
                let mut child_prefix: Vec<Step> = prefix.clone();
                child_prefix.push(Step::Field(i));
                assert(steps_view(child_prefix@) =~= steps_view(prefix@).push(
                    StepModel::Field(i as nat),
                ));
                assert(decreases_to!(*template => template->Object_0[i as int].value));
                let mut sub = traverse(&members[i].value, names, text_key, &child_prefix);
                proof {
                    lemma_paths_view_concat(out@, sub@);
                    lemma_with_prefix_step(
                        steps_view(prefix@),
                        StepModel::Field(i as nat),
                        member_placeholders(members_view(members@), i as nat, nv, tk),
                        placeholders(members[i as int].value@, nv, tk),
                    );
                }
                out.append(&mut sub);
                i += 1;
            }
            out
        },
        _ => {
            let out: Vec<PlaceholderPath> = Vec::new();
            assert(paths_view(out@) =~= with_prefix(
                steps_view(prefix@),
                placeholders(template@, nv, tk),
            ));
            out
        },
    }
}

/// The scope in which text templates are rendered: each name with its
/// value as the JSON library holds it.
pub open spec fn render_scope(values: Seq<(Seq<char>, JsonValue)>) -> Seq<(Seq<char>, JsonValue)> {
    Seq::new(values.len(), |i: int| (values[i].0, normal_form(values[i].1)))
}

/// What the text-template engine makes of `source` in the scope `scope`:
/// the rendered text, or the message of the engine's error.
pub uninterp spec fn rendered_text(source: Seq<char>, scope: Seq<(Seq<char>, JsonValue)>) -> Result<
    Seq<char>,
    Seq<char>,
>;

/// What a list of named `serde_json` values holds.
pub open spec fn scope_view(scope: Seq<(String, serde_json::Value)>) -> Seq<(Seq<char>, JsonValue)> {
    Seq::new(scope.len(), |i: int| (scope[i].0@, json_document(scope[i].1)))
}

/// What a result holds, its strings as character sequences.
pub open spec fn text_result(r: Result<String, String>) -> Result<Seq<char>, Seq<char>> {
    match r {
        Ok(s) => Ok(s@),
        Err(e) => Err(e@),
    }
}

/// The names and values that a map of values holds, in the map's order.
pub uninterp spec fn bindings(values: IndexMap<String, Json>) -> Seq<(Seq<char>, JsonValue)>;

/// `IndexMap::into_iter`: the pairs of the map, in the map's order, each
/// as a member. A map holds each key once, so no name comes twice.
#[verifier::external_body]
pub(crate) fn map_members(values: IndexMap<String, Json>) -> (r: Vec<Member>)
    ensures
        members_view(r@) == bindings(values),
        distinct_keys(members_view(r@)),
{
    values.into_iter().map(|(name, value)| Member { name, value }).collect()
}

/// Renders `source` with `minijinja`: `Environment::render_str` on a
/// fresh `Environment`, with the scope as a map from names to values. An
/// error comes back as its `to_string`. The outcome is a function of the
/// source and of what the scope holds.
#[verifier::external_body]
pub(crate) fn render_text(source: &str, scope: &Vec<(String, serde_json::Value)>) -> (r: Result<
    String,
    String,
>)
    ensures
        text_result(r) == rendered_text(source@, scope_view(scope@)),
{
    let context: IndexMap<&str, &serde_json::Value> =
        scope.iter().map(|(k, v)| (k.as_str(), v)).collect();
    minijinja::Environment::new().render_str(source, &context).map_err(|e| e.to_string())
}

/// The value that goes to the place of a placeholder, or the message with
/// which its text template fails to render. A name that `values` does not
/// bind stands for `null`.
pub open spec fn leaf_outcome(leaf: LeafModel, values: Seq<(Seq<char>, JsonValue)>) -> Result<
    JsonValue,
    Seq<char>,
> {
    match leaf {
        LeafModel::Value(name) => match value_of(values, name) {
            Some(v) => Ok(v),
            None => Ok(JsonValue::Null),
        },
        LeafModel::Text(source) => match rendered_text(source, render_scope(values)) {
            Ok(text) => Ok(JsonValue::Str(text)),
            Err(message) => Err(message),
        },
    }
}

/// The value that goes to the place of a placeholder; `null` where its
/// text template fails to render.
pub open spec fn leaf_value(leaf: LeafModel, values: Seq<(Seq<char>, JsonValue)>) -> JsonValue {
    match leaf_outcome(leaf, values) {
        Ok(v) => v,
        Err(_) => JsonValue::Null,
    }
}

/// `j` with the value at the end of `steps` replaced by `replacement`. A
/// step that `j` does not have leaves `j` as it is.
pub open spec fn put(j: JsonValue, steps: Seq<StepModel>, replacement: JsonValue) -> JsonValue
    decreases steps.len(),
{
    if steps.len() == 0 {
        replacement
    } else {
        match (steps[0], j) {
            (StepModel::Index(i), JsonValue::Array(items)) => if i < items.len() {
                JsonValue::Array(
                    items.update(i as int, put(items[i as int], steps.drop_first(), replacement)),
                )
            } else {
                j
            },
            (StepModel::Field(i), JsonValue::Object(members)) => if i < members.len() {
                JsonValue::Object(
                    members.update(
                        i as int,
                        (
                            members[i as int].0,
                            put(members[i as int].1, steps.drop_first(), replacement),
                        ),
                    ),
                )
            } else {
                j
            },
            _ => j,
        }
    }
}

/// `j` after the first `n` of `paths` were overwritten, one after another.
pub open spec fn put_all(
    j: JsonValue,
    paths: Seq<PathModel>,
    values: Seq<(Seq<char>, JsonValue)>,
    n: nat,
) -> JsonValue
    decreases n,
{
    if n == 0 || n > paths.len() {
        j
    } else {
        put(
            put_all(j, paths, values, (n - 1) as nat),
            paths[n - 1].steps,
            leaf_value(paths[n - 1].leaf, values),
        )
    }
}

/// The message of the first of the first `n` of `paths` whose text
/// template fails to render.
pub open spec fn first_failure(
    paths: Seq<PathModel>,
    values: Seq<(Seq<char>, JsonValue)>,
    n: nat,
) -> Option<Seq<char>>
    decreases n,
{
    if n == 0 || n > paths.len() {
        None
    } else {
        match first_failure(paths, values, (n - 1) as nat) {
            Some(message) => Some(message),
            None => match leaf_outcome(paths[n - 1].leaf, values) {
                Ok(_) => None,
                Err(message) => Some(message),
            },
        }
    }
}

/// The template `j` with every placeholder replaced: a value placeholder by
/// the value bound to its name, a text placeholder by the string that its
/// source renders to. Everything else stays as it is.
pub open spec fn expanded(
    j: JsonValue,
    names: Seq<Seq<char>>,
    text_key: Seq<char>,
    values: Seq<(Seq<char>, JsonValue)>,
) -> JsonValue
    decreases j,
{
    if is_text_leaf(j, text_key) {
        leaf_value(LeafModel::Text(j->Object_0[0].1->Str_0), values)
    } else if is_value_leaf(j, names) {
        leaf_value(LeafModel::Value(j->Str_0.subrange(1, j->Str_0.len() as int)), values)
    } else {
        match j {
            JsonValue::Array(items) => JsonValue::Array(
                Seq::new(
                    items.len(),
                    |i: int|
                        if 0 <= i < items.len() {
                            expanded(items[i], names, text_key, values)
                        } else {
                            JsonValue::Null
                        },
                ),
            ),
            JsonValue::Object(members) => JsonValue::Object(
                Seq::new(
                    members.len(),
                    |i: int|
                        if 0 <= i < members.len() {
                            (members[i].0, expanded(members[i].1, names, text_key, values))
                        } else {
                            (Seq::empty(), JsonValue::Null)
                        },
                ),
            ),
            _ => j,
        }
    }
}

proof fn lemma_put_all_reads_prefix(
    j: JsonValue,
    p: Seq<PathModel>,
    q: Seq<PathModel>,
    values: Seq<(Seq<char>, JsonValue)>,
    n: nat,
)
    requires
        n <= p.len(),
        n <= q.len(),
        forall|k: int| 0 <= k < n ==> p[k] == q[k],
    ensures
        put_all(j, p, values, n) == put_all(j, q, values, n),
    decreases n,
{
    if n > 0 {
        lemma_put_all_reads_prefix(j, p, q, values, (n - 1) as nat);
    }
}

proof fn lemma_put_all_concat(
    j: JsonValue,
    a: Seq<PathModel>,
    b: Seq<PathModel>,
    values: Seq<(Seq<char>, JsonValue)>,
    m: nat,
)
    requires
        m <= b.len(),
    ensures
        put_all(j, a + b, values, a.len() + m) == put_all(
            put_all(j, a, values, a.len()),
            b,
            values,
            m,
        ),
    decreases m,
{
    if m == 0 {
        lemma_put_all_reads_prefix(j, a + b, a, values, a.len());
    } else {
        lemma_put_all_concat(j, a, b, values, (m - 1) as nat);
        assert((a + b)[a.len() + m - 1] == b[m - 1]);
    }
}

proof fn lemma_put_all_index(
    items: Seq<JsonValue>,
    i: nat,
    paths: Seq<PathModel>,
    values: Seq<(Seq<char>, JsonValue)>,
    n: nat,
)
    requires
        i < items.len(),
        n <= paths.len(),
    ensures
        put_all(JsonValue::Array(items), prefixed(StepModel::Index(i), paths), values, n)
            == JsonValue::Array(items.update(i as int, put_all(items[i as int], paths, values, n))),
    decreases n,
{
    let whole = JsonValue::Array(items);
    let pre = prefixed(StepModel::Index(i), paths);
    if n == 0 {
        assert(items.update(i as int, items[i as int]) =~= items);
    } else {
        lemma_put_all_index(items, i, paths, values, (n - 1) as nat);
        let before = put_all(items[i as int], paths, values, (n - 1) as nat);
        let steps = pre[n - 1].steps;
        assert(steps.drop_first() =~= paths[n - 1].steps);
        let v = leaf_value(paths[n - 1].leaf, values);
        assert(items.update(i as int, before).update(
            i as int,
            put(before, paths[n - 1].steps, v),
        ) =~= items.update(i as int, put(before, paths[n - 1].steps, v)));
    }
}

proof fn lemma_put_all_field(
    members: Seq<(Seq<char>, JsonValue)>,
    i: nat,
    paths: Seq<PathModel>,
    values: Seq<(Seq<char>, JsonValue)>,
    n: nat,
)
    requires
        i < members.len(),
        n <= paths.len(),
    ensures
        put_all(JsonValue::Object(members), prefixed(StepModel::Field(i), paths), values, n)
            == JsonValue::Object(
            members.update(
                i as int,
                (members[i as int].0, put_all(members[i as int].1, paths, values, n)),
            ),
        ),
    decreases n,
{
    let pre = prefixed(StepModel::Field(i), paths);
    if n == 0 {
        assert(members.update(i as int, (members[i as int].0, members[i as int].1)) =~= members);
    } else {
        lemma_put_all_field(members, i, paths, values, (n - 1) as nat);
        let before = put_all(members[i as int].1, paths, values, (n - 1) as nat);
        let steps = pre[n - 1].steps;
        assert(steps.drop_first() =~= paths[n - 1].steps);
        let v = leaf_value(paths[n - 1].leaf, values);
        let name = members[i as int].0;
        assert(members.update(i as int, (name, before)).update(
            i as int,
            (name, put(before, paths[n - 1].steps, v)),
        ) =~= members.update(i as int, (name, put(before, paths[n - 1].steps, v))));
    }
}

/// The items of an array of which the first `n` are expanded.
pub open spec fn items_expanded(
    items: Seq<JsonValue>,
    n: nat,
    names: Seq<Seq<char>>,
    text_key: Seq<char>,
    values: Seq<(Seq<char>, JsonValue)>,
) -> Seq<JsonValue> {
    Seq::new(
        items.len(),
        |i: int|
            if 0 <= i < n {
                expanded(items[i], names, text_key, values)
            } else {
                items[i]
            },
    )
}

/// The members of an object of which the first `n` are expanded.
pub open spec fn members_expanded(
    members: Seq<(Seq<char>, JsonValue)>,
    n: nat,
    names: Seq<Seq<char>>,
    text_key: Seq<char>,
    values: Seq<(Seq<char>, JsonValue)>,
) -> Seq<(Seq<char>, JsonValue)> {
    Seq::new(
        members.len(),
        |i: int|
            if 0 <= i < n {
                (members[i].0, expanded(members[i].1, names, text_key, values))
            } else {
                members[i]
            },
    )
}

/// Overwriting the placeholders of a template one after another, in the
/// order in which the walk finds them, gives the template with every
/// placeholder replaced and everything else unchanged.
pub proof fn lemma_paths_expand(
    j: JsonValue,
    names: Seq<Seq<char>>,
    text_key: Seq<char>,
    values: Seq<(Seq<char>, JsonValue)>,
)
    ensures
        put_all(
            j,
            placeholders(j, names, text_key),
            values,
            placeholders(j, names, text_key).len(),
        ) == expanded(j, names, text_key, values),
    decreases j, 0nat,
{
    let paths = placeholders(j, names, text_key);
    if is_text_leaf(j, text_key) {
        assert(paths.len() == 1);
        assert(put_all(j, paths, values, 0) == j);
    } else if is_value_leaf(j, names) {
        assert(paths.len() == 1);
        assert(put_all(j, paths, values, 0) == j);
    } else {
        match j {
            JsonValue::Array(items) => {
                lemma_items_expand(items, items.len(), names, text_key, values);
                assert(items_expanded(items, items.len(), names, text_key, values)
                    =~= expanded(j, names, text_key, values)->Array_0);
            },
            JsonValue::Object(members) => {
                lemma_members_expand(members, members.len(), names, text_key, values);
                assert(members_expanded(members, members.len(), names, text_key, values)
                    =~= expanded(j, names, text_key, values)->Object_0);
            },
            _ => {},
        }
    }
}

proof fn lemma_items_expand(
    items: Seq<JsonValue>,
    n: nat,
    names: Seq<Seq<char>>,
    text_key: Seq<char>,
    values: Seq<(Seq<char>, JsonValue)>,
)
    requires
        n <= items.len(),
    ensures
        put_all(
            JsonValue::Array(items),
            item_placeholders(items, n, names, text_key),
            values,
            item_placeholders(items, n, names, text_key).len(),
        ) == JsonValue::Array(items_expanded(items, n, names, text_key, values)),
    decreases items, n,
{
    let whole = JsonValue::Array(items);
    if n == 0 {
        assert(items_expanded(items, 0, names, text_key, values) =~= items);
    } else {
        let i = (n - 1) as nat;
        let a = item_placeholders(items, i, names, text_key);
        let sub = placeholders(items[i as int], names, text_key);
        let b = prefixed(StepModel::Index(i), sub);
        lemma_items_expand(items, i, names, text_key, values);
        lemma_paths_expand(items[i as int], names, text_key, values);
        lemma_put_all_concat(whole, a, b, values, b.len());
        let mid = items_expanded(items, i, names, text_key, values);
        lemma_put_all_index(mid, i, sub, values, sub.len());
        assert(mid[i as int] == items[i as int]);
        assert(mid.update(i as int, expanded(items[i as int], names, text_key, values))
            =~= items_expanded(items, n, names, text_key, values));
    }
}

proof fn lemma_members_expand(
    members: Seq<(Seq<char>, JsonValue)>,
    n: nat,
    names: Seq<Seq<char>>,
    text_key: Seq<char>,
    values: Seq<(Seq<char>, JsonValue)>,
)
    requires
        n <= members.len(),
    ensures
        put_all(
            JsonValue::Object(members),
            member_placeholders(members, n, names, text_key),
            values,
            member_placeholders(members, n, names, text_key).len(),
        ) == JsonValue::Object(members_expanded(members, n, names, text_key, values)),
    decreases members, n,
{
    let whole = JsonValue::Object(members);
    if n == 0 {
        assert(members_expanded(members, 0, names, text_key, values) =~= members);
    } else {
        let i = (n - 1) as nat;
        let a = member_placeholders(members, i, names, text_key);
        let sub = placeholders(members[i as int].1, names, text_key);
        let b = prefixed(StepModel::Field(i), sub);
        lemma_members_expand(members, i, names, text_key, values);
        lemma_paths_expand(members[i as int].1, names, text_key, values);
        lemma_put_all_concat(whole, a, b, values, b.len());
        let mid = members_expanded(members, i, names, text_key, values);
        lemma_put_all_field(mid, i, sub, values, sub.len());
        assert(mid[i as int] == members[i as int]);
        assert(mid.update(
            i as int,
            (members[i as int].0, expanded(members[i as int].1, names, text_key, values)),
        ) =~= members_expanded(members, n, names, text_key, values));
    }
}

proof fn lemma_names_fault_stays(names: Seq<Seq<char>>, n: nat, m: nat)
    requires
        n <= m,
        names_fault(names, n) is Some,
    ensures
        names_fault(names, m) == names_fault(names, n),
    decreases m,
{
    if n < m {
        lemma_names_fault_stays(names, n, (m - 1) as nat);
    }
}

proof fn lemma_first_failure_stays(
    paths: Seq<PathModel>,
    values: Seq<(Seq<char>, JsonValue)>,
    n: nat,
    m: nat,
)
    requires
        n <= m <= paths.len(),
        first_failure(paths, values, n) is Some,
    ensures
        first_failure(paths, values, m) == first_failure(paths, values, n),
    decreases m,
{
    if n < m {
        lemma_first_failure_stays(paths, values, n, (m - 1) as nat);
    }
}

/// The value that stands in `j` at the end of `steps`, if `j` has such a
/// place.
pub open spec fn value_at(j: JsonValue, steps: Seq<StepModel>) -> Option<JsonValue>
    decreases steps.len(),
{
    if steps.len() == 0 {
        Some(j)
    } else {
        match (steps[0], j) {
            (StepModel::Index(i), JsonValue::Array(items)) => if i < items.len() {
                value_at(items[i as int], steps.drop_first())
            } else {
                None
            },
            (StepModel::Field(i), JsonValue::Object(members)) => if i < members.len() {
                value_at(members[i as int].1, steps.drop_first())
            } else {
                None
            },
            _ => None,
        }
    }
}

/// Whether `path` leads, in `j`, to a placeholder of its kind: a value
/// path to the string `$name` of a declared name, a text path to an
/// object whose only member is named `text_key` and holds the source.
pub open spec fn leads_to_leaf(
    j: JsonValue,
    path: PathModel,
    names: Seq<Seq<char>>,
    text_key: Seq<char>,
) -> bool {
    match value_at(j, path.steps) {
        Some(v) => match path.leaf {
            LeafModel::Value(name) => is_value_leaf(v, names) && v->Str_0.subrange(
                1,
                v->Str_0.len() as int,
            ) == name,
            LeafModel::Text(source) => is_text_leaf(v, text_key) && v->Object_0[0].1
                == JsonValue::Str(source),
        },
        None => false,
    }
}

/// Whether each of `paths` leads, in `j`, to a placeholder of its kind.
pub open spec fn all_lead_to_leaves(
    j: JsonValue,
    paths: Seq<PathModel>,
    names: Seq<Seq<char>>,
    text_key: Seq<char>,
) -> bool {
    forall|k: int| 0 <= k < paths.len() ==> leads_to_leaf(j, #[trigger] paths[k], names, text_key)
}

proof fn lemma_leaves_join(
    whole: JsonValue,
    child: JsonValue,
    a: Seq<PathModel>,
    step: StepModel,
    b: Seq<PathModel>,
    names: Seq<Seq<char>>,
    text_key: Seq<char>,
)
    requires
        all_lead_to_leaves(whole, a, names, text_key),
        all_lead_to_leaves(child, b, names, text_key),
        forall|s: Seq<StepModel>| value_at(whole, seq![step] + s) == #[trigger] value_at(child, s),
    ensures
        all_lead_to_leaves(whole, a + prefixed(step, b), names, text_key),
{
    let all = a + prefixed(step, b);
    assert forall|k: int| 0 <= k < all.len() implies leads_to_leaf(
        whole,
        #[trigger] all[k],
        names,
        text_key,
    ) by {
        if k < a.len() {
            assert(all[k] == a[k]);
        } else {
            let q = b[k - a.len()];
            assert(leads_to_leaf(child, q, names, text_key));
            let steps = seq![step] + q.steps;
            assert(all[k].steps == steps);
            assert(all[k].leaf == q.leaf);
            assert(value_at(whole, steps) == value_at(child, q.steps));
        }
    }
}

/// Every placeholder that a walk finds leads, in the value that was
/// walked, to a placeholder of its kind.
pub proof fn lemma_placeholders_lead_to_leaves(
    j: JsonValue,
    names: Seq<Seq<char>>,
    text_key: Seq<char>,
)
    ensures
        all_lead_to_leaves(j, placeholders(j, names, text_key), names, text_key),
    decreases j, 0nat,
{
    if is_text_leaf(j, text_key) {
    } else if is_value_leaf(j, names) {
    } else {
        match j {
            JsonValue::Array(items) => {
                lemma_item_placeholders_lead(items, items.len(), names, text_key);
            },
            JsonValue::Object(members) => {
                lemma_member_placeholders_lead(members, members.len(), names, text_key);
            },
            _ => {},
        }
    }
}

proof fn lemma_item_placeholders_lead(
    items: Seq<JsonValue>,
    n: nat,
    names: Seq<Seq<char>>,
    text_key: Seq<char>,
)
    requires
        n <= items.len(),
    ensures
        all_lead_to_leaves(
            JsonValue::Array(items),
            item_placeholders(items, n, names, text_key),
            names,
            text_key,
        ),
    decreases items, n,
{
    if n > 0 {
        let step = StepModel::Index((n - 1) as nat);
        lemma_item_placeholders_lead(items, (n - 1) as nat, names, text_key);
        lemma_placeholders_lead_to_leaves(items[n - 1], names, text_key);
        assert forall|s: Seq<StepModel>|
            value_at(JsonValue::Array(items), seq![step] + s) == #[trigger] value_at(
                items[n - 1],
                s,
            ) by {
            assert((seq![step] + s).drop_first() =~= s);
        }
        lemma_leaves_join(
            JsonValue::Array(items),
            items[n - 1],
            item_placeholders(items, (n - 1) as nat, names, text_key),
            step,
            placeholders(items[n - 1], names, text_key),
            names,
            text_key,
        );
    }
}

proof fn lemma_member_placeholders_lead(
    members: Seq<(Seq<char>, JsonValue)>,
    n: nat,
    names: Seq<Seq<char>>,
    text_key: Seq<char>,
)
    requires
        n <= members.len(),
    ensures
        all_lead_to_leaves(
            JsonValue::Object(members),
            member_placeholders(members, n, names, text_key),
            names,
            text_key,
        ),
    decreases members, n,
{
    if n > 0 {
        let step = StepModel::Field((n - 1) as nat);
        lemma_member_placeholders_lead(members, (n - 1) as nat, names, text_key);
        lemma_placeholders_lead_to_leaves(members[n - 1].1, names, text_key);
        assert forall|s: Seq<StepModel>|
            value_at(JsonValue::Object(members), seq![step] + s) == #[trigger] value_at(
                members[n - 1].1,
                s,
            ) by {
            assert((seq![step] + s).drop_first() =~= s);
        }
        lemma_leaves_join(
            JsonValue::Object(members),
            members[n - 1].1,
            member_placeholders(members, (n - 1) as nat, names, text_key),
            step,
            placeholders(members[n - 1].1, names, text_key),
            names,
            text_key,
        );
    }
}

/// A value without placeholders expands to itself.
pub proof fn lemma_expand_without_placeholders(
    j: JsonValue,
    names: Seq<Seq<char>>,
    text_key: Seq<char>,
    values: Seq<(Seq<char>, JsonValue)>,
)
    requires
        placeholders(j, names, text_key).len() == 0,
    ensures
        expanded(j, names, text_key, values) == j,
{
    lemma_paths_expand(j, names, text_key, values);
}

/// Whether the name of every value placeholder among `paths` is one of
/// `names`.
pub open spec fn leaves_declared(paths: Seq<PathModel>, names: Seq<Seq<char>>) -> bool {
    forall|k: int|
        0 <= k < paths.len() && (#[trigger] paths[k]).leaf is Value ==> names.contains(
            paths[k].leaf->Value_0,
        )
}

proof fn lemma_leaves_declared_join(
    a: Seq<PathModel>,
    step: StepModel,
    b: Seq<PathModel>,
    names: Seq<Seq<char>>,
)
    requires
        leaves_declared(a, names),
        leaves_declared(b, names),
    ensures
        leaves_declared(a + prefixed(step, b), names),
{
    let all = a + prefixed(step, b);
    assert forall|k: int| 0 <= k < all.len() && (#[trigger] all[k]).leaf is Value implies names.contains(
        all[k].leaf->Value_0,
    ) by {
        if k < a.len() {
            assert(all[k] == a[k]);
        } else {
            assert(all[k].leaf == b[k - a.len()].leaf);
        }
    }
}

/// A walk finds value placeholders for declared names only.
pub proof fn lemma_placeholders_declared(j: JsonValue, names: Seq<Seq<char>>, text_key: Seq<char>)
    ensures
        leaves_declared(placeholders(j, names, text_key), names),
    decreases j, 0nat,
{
    if is_text_leaf(j, text_key) {
    } else if is_value_leaf(j, names) {
    } else {
        match j {
            JsonValue::Array(items) => {
                lemma_item_placeholders_declared(items, items.len(), names, text_key);
            },
            JsonValue::Object(members) => {
                lemma_member_placeholders_declared(members, members.len(), names, text_key);
            },
            _ => {},
        }
    }
}

proof fn lemma_item_placeholders_declared(
    items: Seq<JsonValue>,
    n: nat,
    names: Seq<Seq<char>>,
    text_key: Seq<char>,
)
    requires
        n <= items.len(),
    ensures
        leaves_declared(item_placeholders(items, n, names, text_key), names),
    decreases items, n,
{
    if n > 0 {
        lemma_item_placeholders_declared(items, (n - 1) as nat, names, text_key);
        lemma_placeholders_declared(items[n - 1], names, text_key);
        lemma_leaves_declared_join(
            item_placeholders(items, (n - 1) as nat, names, text_key),
            StepModel::Index((n - 1) as nat),
            placeholders(items[n - 1], names, text_key),
            names,
        );
    }
}

proof fn lemma_member_placeholders_declared(
    members: Seq<(Seq<char>, JsonValue)>,
    n: nat,
    names: Seq<Seq<char>>,
    text_key: Seq<char>,
)
    requires
        n <= members.len(),
    ensures
        leaves_declared(member_placeholders(members, n, names, text_key), names),
    decreases members, n,
{
    if n > 0 {
        lemma_member_placeholders_declared(members, (n - 1) as nat, names, text_key);
        lemma_placeholders_declared(members[n - 1].1, names, text_key);
        lemma_leaves_declared_join(
            member_placeholders(members, (n - 1) as nat, names, text_key),
            StepModel::Field((n - 1) as nat),
            placeholders(members[n - 1].1, names, text_key),
            names,
        );
    }
}

/// The value that the first of `values` with the name `name` holds.
pub fn find_value<'a>(values: &'a Vec<Member>, name: &str) -> (r: Option<&'a Json>)
    ensures
        match r {
            Some(v) => value_of(members_view(values@), name@) == Some(v@),
            None => value_of(members_view(values@), name@) is None,
        },
{
    let ghost mv = members_view(values@);
    let mut i: usize = 0;
    while i < values.len()
        invariant
            i <= values.len(),
            mv == members_view(values@),
            position_of(mv, name@) == position_from(mv, name@, i as int),
        decreases values.len() - i,
    {
        if str_eq(values[i].name.as_str(), name) {
            return Some(&values[i].value);
        }
        i += 1;
    }
    None
}

/// The scope for the text-template engine: each value as the JSON library
/// holds it, under its name.
fn outside_scope(values: &Vec<Member>) -> (r: Vec<(String, serde_json::Value)>)
    ensures
        scope_view(r@) == render_scope(members_view(values@)),
{
    let mut out: Vec<(String, serde_json::Value)> = Vec::new();
    let mut i: usize = 0;
    while i < values.len()
        invariant
            i <= values.len(),
            out.len() == i,
            forall|k: int|
                0 <= k < i ==> out[k].0@ == values[k].name@ && json_document(out[k].1)
                    == normal_form(values[k].value@),
        decreases values.len() - i,
    {
        out.push((values[i].name.clone(), to_serde(&values[i].value)));
        i += 1;
    }
    assert(scope_view(out@) =~= render_scope(members_view(values@)));
    out
}

/// `target` with the value at the end of `steps[from..]` replaced by
/// `replacement`.
fn overwrite_from(target: Json, steps: &Vec<Step>, from: usize, replacement: Json) -> (r: Json)
    requires
        from <= steps.len(),
    ensures
        r@ == put(target@, steps_view(steps@).subrange(from as int, steps.len() as int), replacement@),
    decreases steps.len() - from,
{
    let ghost rest = steps_view(steps@).subrange(from as int, steps.len() as int);
    if from == steps.len() {
        return replacement;
    }
    assert(rest[0] == steps[from as int]@);
    assert(rest.drop_first() =~= steps_view(steps@).subrange(from + 1, steps.len() as int));
    match target {
        Json::Array(mut items) => {
            proof {
                lemma_array_view(items);
            }
            let ghost before = items@;
            match steps[from] {
                Step::Index(i) => {
                    if i < items.len() {
                        let child = items.remove(i);
                        let renewed = overwrite_from(child, steps, from + 1, replacement);
                        items.insert(i, renewed);
                        proof {
                            lemma_array_view(items);
                            assert(items_view(items@) =~= items_view(before).update(
                                i as int,
                                renewed@,
                            ));
                        }
                    }
                    Json::Array(items)
                },
                _ => Json::Array(items),
            }
        },
        Json::Object(mut members) => {
            proof {
                lemma_object_view(members);
            }
            let ghost before = members@;
            match steps[from] {
                Step::Field(i) => {
                    if i < members.len() {
                        let member = members.remove(i);
                        let renewed = overwrite_from(member.value, steps, from + 1, replacement);
                        members.insert(i, Member { name: member.name, value: renewed });
                        proof {
                            lemma_object_view(members);
                            assert(members_view(members@) =~= members_view(before).update(
                                i as int,
                                (before[i as int].name@, renewed@),
                            ));
                        }
                    }
                    Json::Object(members)
                },
                _ => Json::Object(members),
            }
        },
        other => other,
    }
}

/// `target` with the value at the end of `steps` replaced by
/// `replacement`. Where `target` has no such place it comes back unchanged.
pub fn overwrite(target: Json, steps: &Vec<Step>, replacement: Json) -> (r: Json)
    ensures
        r@ == put(target@, steps_view(steps@), replacement@),
{
    assert(steps_view(steps@).subrange(0, steps.len() as int) =~= steps_view(steps@));
    overwrite_from(target, steps, 0, replacement)
}

/// Copies of `names`, in order.
fn clone_names(names: &Vec<String>) -> (r: Vec<String>)
    ensures
        names_view(r@) == names_view(names@),
{
    let mut out: Vec<String> = Vec::new();
    let mut i: usize = 0;
    while i < names.len()
        invariant
            i <= names.len(),
            out.len() == i,
            forall|k: int| 0 <= k < i ==> out[k]@ == names[k]@,
        decreases names.len() - i,
    {
        out.push(names[i].clone());
        i += 1;
    }
    assert(names_view(out@) =~= names_view(names@));
    out
}

/// Copies of `paths`, in order.
fn clone_paths(paths: &Vec<PlaceholderPath>) -> (r: Vec<PlaceholderPath>)
    ensures
        paths_view(r@) == paths_view(paths@),
{
    let mut out: Vec<PlaceholderPath> = Vec::new();
    let mut i: usize = 0;
    while i < paths.len()
        invariant
            i <= paths.len(),
            out.len() == i,
            forall|k: int| 0 <= k < i ==> out[k]@ == paths[k]@,
        decreases paths.len() - i,
    {
        let leaf = match &paths[i].leaf {
            PlaceholderLeaf::Value(name) => PlaceholderLeaf::Value(name.clone()),
            PlaceholderLeaf::Text(source) => PlaceholderLeaf::Text(source.clone()),
        };
        let steps: Vec<Step> = paths[i].steps.clone();
        assert(steps_view(steps@) =~= steps_view(paths[i as int].steps@));
        out.push(PlaceholderPath { steps, leaf });
        i += 1;
    }
    assert(paths_view(out@) =~= paths_view(paths@));
    out
}

/// A JSON template: the template value, the placeholder names it was read
/// with, and the places of its placeholders.
#[derive(Debug, PartialEq, Eq)]
pub struct JsonTemplate {
    template: Json,
    value_names: Vec<String>,
    text_name: String,
    placeholder_paths: Vec<PlaceholderPath>,
}

impl Clone for JsonTemplate {
    /// A copy of the template: the same value, read with the same names.
    fn clone(&self) -> (r: JsonTemplate)
        ensures
            r.template() == self.template(),
            r.value_names() == self.value_names(),
            r.text_name() == self.text_name(),
    {
        proof {
            use_type_invariant(self);
        }
        JsonTemplate {
            template: self.template.clone(),
            value_names: clone_names(&self.value_names),
            text_name: self.text_name.clone(),
            placeholder_paths: clone_paths(&self.placeholder_paths),
        }
    }
}

impl JsonTemplate {
    /// The recorded paths are the placeholders of the template, in the
    /// order of the walk.
    #[verifier::type_invariant]
    closed spec fn wf(self) -> bool {
        paths_view(self.placeholder_paths@) == placeholders(
            self.template@,
            names_view(self.value_names@),
            "$"@ + self.text_name@,
        )
    }

    /// The template value.
    pub closed spec fn template(self) -> JsonValue {
        self.template@
    }

    /// The names of the value placeholders.
    pub closed spec fn value_names(self) -> Seq<Seq<char>> {
        names_view(self.value_names@)
    }

    /// The name of the text placeholder.
    pub closed spec fn text_name(self) -> Seq<char> {
        self.text_name@
    }

    /// The member name that marks a text placeholder: `$` and the text
    /// placeholder's name.
    pub open spec fn text_key(self) -> Seq<char> {
        "$"@ + self.text_name()
    }

    /// The template's placeholders, in the order of the walk.
    pub open spec fn paths(self) -> Seq<PathModel> {
        placeholders(self.template(), self.value_names(), self.text_key())
    }

    /// Whether `values` binds the name of every value placeholder of the
    /// template.
    pub open spec fn binds(self, values: Seq<(Seq<char>, JsonValue)>) -> bool {
        forall|k: int|
            0 <= k < self.paths().len() && (#[trigger] self.paths()[k]).leaf is Value ==> value_of(
                values,
                self.paths()[k].leaf->Value_0,
            ) is Some
    }

    /// The message of the first text placeholder, in the order of the
    /// walk, whose source fails to render with `values`.
    pub open spec fn render_failure(self, values: Seq<(Seq<char>, JsonValue)>) -> Option<Seq<char>> {
        first_failure(self.paths(), values, self.paths().len())
    }

    /// The names of the value placeholders that the template was read
    /// with.
    pub fn value_placeholders(&self) -> (r: &Vec<String>)
        ensures
            names_view(r@) == self.value_names(),
    {
        &self.value_names
    }

    /// The name of the text placeholder that the template was read with.
    pub fn text_placeholder(&self) -> (r: &String)
        ensures
            r@ == self.text_name(),
    {
        &self.text_name
    }

    /// The template value.
    pub fn value(&self) -> (r: &Json)
        ensures
            r@ == self.template(),
    {
        &self.template
    }

    /// Values that bind every declared name bind every value placeholder
    /// of the template.
    pub proof fn lemma_declared_names_suffice(self, values: Seq<(Seq<char>, JsonValue)>)
        requires
            forall|i: int|
                0 <= i < self.value_names().len() ==> value_of(
                    values,
                    #[trigger] self.value_names()[i],
                ) is Some,
        ensures
            self.binds(values),
    {
        lemma_placeholders_declared(self.template(), self.value_names(), self.text_key());
    }

    /// Why `new_name` cannot be taken as a placeholder name after
    /// `existing_names`: it is empty, it is not made of letters, digits
    /// and underscores with no digit in front, or it was given before.
    pub fn validate_placeholder_name(new_name: &str, existing_names: &Vec<String>) -> (r: Result<
        (),
        String,
    >)
        ensures
            match r {
                Ok(_) => name_fault(new_name@, names_view(existing_names@)) is None,
                Err(e) => name_fault(new_name@, names_view(existing_names@)) == Some(e@),
            },
    {
        if new_name.unicode_len() == 0 {
            return Err("placeholder name cannot be empty".to_owned());
        }
        if !check_placeholder_name(new_name) {
            return Err(join3("invalid placeholder name: `", new_name, "`"));
        }
        if is_declared(existing_names, new_name) {
            return Err(join3("duplicated placeholder name: `", new_name, "`"));
        }
        Ok(())
    }

    /// Reads a template. The names of the value placeholders, then the
    /// name of the text placeholder, are checked in this order, each
    /// against those before it; the first fault is the error. Otherwise the
    /// template's placeholders are found and kept.
    pub fn parse(template: Json, value_placeholders: Vec<String>, text_placeholder: String) -> (r:
        Result<JsonTemplate, String>)
        ensures
            match r {
                Ok(t) => {
                    &&& names_fault(
                        names_view(value_placeholders@).push(text_placeholder@),
                        value_placeholders.len() as nat + 1,
                    ) is None
                    &&& t.template() == template@
                    &&& t.value_names() == names_view(value_placeholders@)
                    &&& t.text_name() == text_placeholder@
                },
                Err(e) => names_fault(
                    names_view(value_placeholders@).push(text_placeholder@),
                    value_placeholders.len() as nat + 1,
                ) == Some(e@),
            },
    {
        let ghost all = names_view(value_placeholders@).push(text_placeholder@);
        let mut validated: Vec<String> = Vec::new();
        let mut i: usize = 0;
        while i < value_placeholders.len()
            invariant
                i <= value_placeholders.len(),
                all == names_view(value_placeholders@).push(text_placeholder@),
                validated.len() == i,
                names_view(validated@) == all.subrange(0, i as int),
                names_fault(all, i as nat) is None,
            decreases value_placeholders.len() - i,
        {
            let name: &String = &value_placeholders[i];
            assert(all[i as int] == name@);
            match Self::validate_placeholder_name(name.as_str(), &validated) {
                Err(e) => {
                    proof {
                        lemma_names_fault_stays(all, (i + 1) as nat, all.len());
                    }
                    return Err(e);
                },
                Ok(_) => {},
            }
            let ghost earlier = validated@;
            validated.push(name.clone());
            i += 1;
            assert forall|k: int| 0 <= k < i implies names_view(validated@)[k] == all.subrange(
                0,
                i as int,
            )[k] by {
                assert(validated@ == earlier.push(validated@[i - 1]));
                assert(validated@[i - 1]@ == all[i - 1]);
                if k < i - 1 {
                    assert(validated@[k] == earlier[k]);
                    assert(names_view(earlier)[k] == all.subrange(0, i - 1)[k]);
                    assert(names_view(earlier)[k] == earlier[k]@);
                }
            }
            assert(names_view(validated@) =~= all.subrange(0, i as int));
        }
        assert(all[i as int] == text_placeholder@);
        match Self::validate_placeholder_name(text_placeholder.as_str(), &validated) {
            Err(e) => {
                return Err(e);
            },
            Ok(_) => {},
        }
        let text_key = join2("$", text_placeholder.as_str());
        let prefix: Vec<Step> = Vec::new();
        let placeholder_paths = traverse(&template, &value_placeholders, text_key.as_str(), &prefix);
        proof {
            assert(steps_view(prefix@) =~= Seq::<StepModel>::empty());
            lemma_with_empty_prefix(
                placeholders(template@, names_view(value_placeholders@), text_key@),
            );
        }
        Ok(
            JsonTemplate {
                template,
                value_names: value_placeholders,
                text_name: text_placeholder,
                placeholder_paths,
            },
        )
    }

    /// Overwrites one placeholder of `expanded`: a value placeholder by the
    /// value bound to its name, a text placeholder by the string that the
    /// engine renders from its source. Where the engine fails, its message
    /// is the error.
    fn expand_recursive(
        expanded: Json,
        scope: &Vec<(String, serde_json::Value)>,
        values: &Vec<Member>,
        placeholder_path: &PlaceholderPath,
    ) -> (r: Result<Json, String>)
        requires
            scope_view(scope@) == render_scope(members_view(values@)),
            placeholder_path.leaf is Value ==> value_of(
                members_view(values@),
                placeholder_path.leaf->Value_0@,
            ) is Some,
        ensures
            match r {
                Ok(v) => leaf_outcome(placeholder_path@.leaf, members_view(values@)) is Ok && v@
                    == put(
                    expanded@,
                    placeholder_path@.steps,
                    leaf_value(placeholder_path@.leaf, members_view(values@)),
                ),
                Err(e) => leaf_outcome(placeholder_path@.leaf, members_view(values@)) == Err::<
                    JsonValue,
                    Seq<char>,
                >(e@),
            },
    {
        let replacement = match &placeholder_path.leaf {
            PlaceholderLeaf::Value(name) => match find_value(values, name.as_str()) {
                Some(v) => v.clone(),
                None => Json::Null,
            },
            PlaceholderLeaf::Text(source) => match render_text(source.as_str(), scope) {
                Ok(text) => Json::Str(text),
                Err(message) => {
                    return Err(message);
                },
            },
        };
        Ok(overwrite(expanded, &placeholder_path.steps, replacement))
    }

    /// The template with every placeholder replaced: a value placeholder
    /// by the value that `values` binds to its name, a text placeholder by
    /// the string that its source renders to with `values` as the scope.
    /// The first text placeholder that fails to render gives the error.
    pub fn expand(&self, values: IndexMap<String, Json>) -> (r: Result<Json, String>)
        requires
            self.binds(bindings(values)),
        ensures
            match r {
                Ok(v) => self.render_failure(bindings(values)) is None && v@ == expanded(
                    self.template(),
                    self.value_names(),
                    self.text_key(),
                    bindings(values),
                ),
                Err(e) => self.render_failure(bindings(values)) == Some(e@),
            },
    {
        let members = map_members(values);
        self.expand_members(&members)
    }

    /// The template with every placeholder replaced, for values that are
    /// given as a list of members in which no name comes twice.
    pub(crate) fn expand_members(&self, values: &Vec<Member>) -> (r: Result<Json, String>)
        requires
            distinct_keys(members_view(values@)),
            self.binds(members_view(values@)),
        ensures
            match r {
                Ok(v) => self.render_failure(members_view(values@)) is None && v@ == expanded(
                    self.template(),
                    self.value_names(),
                    self.text_key(),
                    members_view(values@),
                ),
                Err(e) => self.render_failure(members_view(values@)) == Some(e@),
            },
    {
        proof {
            use_type_invariant(self);
        }
        let ghost vals = members_view(values@);
        let ghost paths = self.paths();
        let scope = outside_scope(values);
        let mut current = self.template.clone();
        let mut i: usize = 0;
        while i < self.placeholder_paths.len()
            invariant
                i <= self.placeholder_paths.len(),
                vals == members_view(values@),
                paths == self.paths(),
                paths == paths_view(self.placeholder_paths@),
                self.binds(vals),
                scope_view(scope@) == render_scope(vals),
                current@ == put_all(self.template@, paths, vals, i as nat),
                first_failure(paths, vals, i as nat) is None,
            decreases self.placeholder_paths.len() - i,
        {
            let path = &self.placeholder_paths[i];
            assert(paths[i as int] == path@);
            match Self::expand_recursive(current, &scope, values, path) {
                Ok(next) => {
                    current = next;
                },
                Err(message) => {
                    proof {
                        lemma_first_failure_stays(paths, vals, (i + 1) as nat, paths.len());
                    }
                    return Err(message);
                },
            }
            i += 1;
        }
        proof {
            lemma_paths_expand(self.template@, self.value_names(), self.text_key(), vals);
        }
        Ok(current)
    }
}

} // verus!
