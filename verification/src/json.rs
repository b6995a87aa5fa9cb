use vstd::prelude::*;

verus! {

/// A JSON value as the viewer hands it on for copying: members keep the document's order
/// and numbers keep the text they were read from.
#[derive(Debug)]
pub enum JsonValue {
    Null,
    Bool(bool),
    Number(String),
    String(String),
    Array(Vec<JsonValue>),
    Object(Vec<(String, JsonValue)>),
}

/// The mathematical form of a `JsonValue`.
pub enum JsonView {
    Null,
    Bool(bool),
    Number(Seq<char>),
    Str(Seq<char>),
    Array(Seq<JsonView>),
    Object(Seq<(Seq<char>, JsonView)>),
}

impl JsonValue {
    pub open spec fn view_of(self) -> JsonView
        decreases self, 0int,
    {
        match self {
            JsonValue::Null => JsonView::Null,
            JsonValue::Bool(b) => JsonView::Bool(b),
            JsonValue::Number(n) => JsonView::Number(n@),
            JsonValue::String(s) => JsonView::Str(s@),
            JsonValue::Array(v) => JsonView::Array(items_view(v@, v@.len() as int)),
            JsonValue::Object(v) => JsonView::Object(members_view(v@, v@.len() as int)),
        }
    }
}

/// The views of the first `k` items.
pub open spec fn items_view(s: Seq<JsonValue>, k: int) -> Seq<JsonView>
    decreases s, k,
{
    if 0 < k <= s.len() {
        items_view(s, k - 1).push(s[k - 1].view_of())
    } else {
        Seq::<JsonView>::empty()
    }
}

/// The views of the first `k` members.
pub open spec fn members_view(s: Seq<(String, JsonValue)>, k: int) -> Seq<(Seq<char>, JsonView)>
    decreases s, k,
{
    if 0 < k <= s.len() {
        members_view(s, k - 1).push((s[k - 1].0@, s[k - 1].1.view_of()))
    } else {
        Seq::<(Seq<char>, JsonView)>::empty()
    }
}


/// Adding an item leaves the views of the items before it unchanged.
pub proof fn lemma_items_view_push(s: Seq<JsonValue>, x: JsonValue, k: int)
    requires
        0 <= k <= s.len(),
    ensures
        items_view(s.push(x), k) == items_view(s, k),
    decreases k,
{
    if k > 0 {
        lemma_items_view_push(s, x, k - 1);
        assert(s.push(x)[k - 1] == s[k - 1]);
    }
}

/// Adding a member leaves the views of the members before it unchanged.
pub proof fn lemma_members_view_push(s: Seq<(String, JsonValue)>, x: (String, JsonValue), k: int)
    requires
        0 <= k <= s.len(),
    ensures
        members_view(s.push(x), k) == members_view(s, k),
    decreases k,
{
    if k > 0 {
        lemma_members_view_push(s, x, k - 1);
        assert(s.push(x)[k - 1] == s[k - 1]);
    }
}

#[verifier::external_type_specification]
#[verifier::external_body]
pub struct ExValue(serde_json::Value);

#[verifier::external_type_specification]
#[verifier::external_body]
pub struct ExNumber(serde_json::Number);

/// The value `serde_json::Value::from(o)` builds: `Value::Null` for `None`, `Value::Bool(b)`
/// for `Some(b)`.
pub uninterp spec fn option_bool_value(o: Option<bool>) -> serde_json::Value;

/// What `serde_json::Number`'s `FromStr` gives for text `n`: the number, or `None` where
/// the text is not a JSON number.
pub uninterp spec fn parsed_number(n: Seq<char>) -> Option<serde_json::Number>;

/// The value `serde_json::Value::Number(num)`.
pub uninterp spec fn number_value(num: serde_json::Number) -> serde_json::Value;

/// The value `serde_json::Value::String(s)`.
pub uninterp spec fn string_value(s: Seq<char>) -> serde_json::Value;

/// The value `serde_json::Value::Array(items)`.
pub uninterp spec fn array_value(items: Seq<serde_json::Value>) -> serde_json::Value;

/// The object value whose `serde_json::Map` is collected from `members` in order.
pub uninterp spec fn object_value(members: Seq<(Seq<char>, serde_json::Value)>) -> serde_json::Value;

/// The text `serde_json::to_string_pretty` writes for `v`.
pub uninterp spec fn pretty_of(v: serde_json::Value) -> Seq<char>;

/// Calls `serde_json::Value::from` on an optional boolean: `None` gives `Value::Null`,
/// `Some(b)` gives `Value::Bool(b)`.
#[verifier::external_body]
fn value_from_option_bool(o: Option<bool>) -> (r: serde_json::Value)
    ensures
        r == option_bool_value(o),
{
    serde_json::Value::from(o)
}

/// Parses `n` with `serde_json::Number`'s `FromStr`; the parse error becomes `None`.
#[verifier::external_body]
fn parse_number(n: &str) -> (r: Option<serde_json::Number>)
    ensures
        r == parsed_number(n@),
{
    n.parse::<serde_json::Number>().ok()
}

/// Builds `serde_json::Value::Number(num)`.
#[verifier::external_body]
fn value_number(num: serde_json::Number) -> (r: serde_json::Value)
    ensures
        r == number_value(num),
{
    serde_json::Value::Number(num)
}

/// Builds `serde_json::Value::String(s)`.
#[verifier::external_body]
fn value_string(s: String) -> (r: serde_json::Value)
    ensures
        r == string_value(s@),
{
    serde_json::Value::String(s)
}

/// Builds `serde_json::Value::Array(items)`.
#[verifier::external_body]
fn value_array(items: Vec<serde_json::Value>) -> (r: serde_json::Value)
    ensures
        r == array_value(items@),
{
    serde_json::Value::Array(items)
}

/// Collects the members into a `serde_json::Map` (which keeps one entry per key, the last
/// one written) and builds the object value.
#[verifier::external_body]
fn value_object(members: Vec<(String, serde_json::Value)>) -> (r: serde_json::Value)
    ensures
        r == object_value(members@.map_values(|m: (String, serde_json::Value)| (m.0@, m.1))),
{
    serde_json::Value::Object(members.into_iter().collect())
}

/// Calls `serde_json::to_string_pretty`; an error (which a `Value` does not raise) would
/// give the empty string. What text it writes is only named, not stated.
#[verifier::external_body]
fn pretty_text(v: &serde_json::Value) -> (r: String)
    ensures
        r@ == pretty_of(*v),
{
    serde_json::to_string_pretty(v).unwrap_or_default()
}

/// The `serde_json::Value` that a JSON value converts to.
pub open spec fn serde_of(v: JsonView) -> serde_json::Value
    decreases v, 0int,
{
    match v {
        JsonView::Null => option_bool_value(None),
        JsonView::Bool(b) => option_bool_value(Some(b)),
        JsonView::Number(n) => match parsed_number(n) {
            Some(num) => number_value(num),
            None => string_value(n),
        },
        JsonView::Str(s) => string_value(s),
        JsonView::Array(items) => array_value(serde_items(items, items.len() as int)),
        JsonView::Object(ms) => object_value(serde_members(ms, ms.len() as int)),
    }
}

/// The converted values of the first `k` items.
pub open spec fn serde_items(s: Seq<JsonView>, k: int) -> Seq<serde_json::Value>
    decreases s, k,
{
    if 0 < k <= s.len() {
        serde_items(s, k - 1).push(serde_of(s[k - 1]))
    } else {
        Seq::<serde_json::Value>::empty()
    }
}

/// The names and converted values of the first `k` members.
pub open spec fn serde_members(s: Seq<(Seq<char>, JsonView)>, k: int) -> Seq<(Seq<char>, serde_json::Value)>
    decreases s, k,
{
    if 0 < k <= s.len() {
        serde_members(s, k - 1).push((s[k - 1].0, serde_of(s[k - 1].1)))
    } else {
        Seq::<(Seq<char>, serde_json::Value)>::empty()
    }
}

proof fn lemma_items_view_index(s: Seq<JsonValue>, k: int)
    requires
        0 <= k <= s.len(),
    ensures
        items_view(s, k).len() == k,
        forall|j: int| 0 <= j < k ==> #[trigger] items_view(s, k)[j] == s[j].view_of(),
    decreases k,
{
    if k > 0 {
        lemma_items_view_index(s, k - 1);
    }
}

proof fn lemma_members_view_index(s: Seq<(String, JsonValue)>, k: int)
    requires
        0 <= k <= s.len(),
    ensures
        members_view(s, k).len() == k,
        forall|j: int| 0 <= j < k ==> #[trigger] members_view(s, k)[j] == (s[j].0@, s[j].1.view_of()),
    decreases k,
{
    if k > 0 {
        lemma_members_view_index(s, k - 1);
    }
}

proof fn lemma_serde_items_index(s: Seq<JsonView>, k: int)
    requires
        0 <= k <= s.len(),
    ensures
        serde_items(s, k).len() == k,
        forall|j: int| 0 <= j < k ==> #[trigger] serde_items(s, k)[j] == serde_of(s[j]),
    decreases k,
{
    if k > 0 {
        lemma_serde_items_index(s, k - 1);
    }
}

proof fn lemma_serde_members_index(s: Seq<(Seq<char>, JsonView)>, k: int)
    requires
        0 <= k <= s.len(),
    ensures
        serde_members(s, k).len() == k,
        forall|j: int| 0 <= j < k ==> #[trigger] serde_members(s, k)[j] == (s[j].0, serde_of(s[j].1)),
    decreases k,
{
    if k > 0 {
        lemma_serde_members_index(s, k - 1);
    }
}

impl JsonValue {
    /// The same value as a `serde_json::Value`.
    pub fn to_serde(&self) -> (r: serde_json::Value)
        ensures
            r == serde_of(self.view_of()),
        decreases self,
    {
        match self {
            JsonValue::Null => value_from_option_bool(None),
            JsonValue::Bool(b) => value_from_option_bool(Some(*b)),
            JsonValue::Number(n) => match parse_number(n.as_str()) {
                Some(num) => value_number(num),
                None => value_string(n.clone()),
            },
            JsonValue::String(s) => value_string(s.clone()),
            JsonValue::Array(v) => {
                let mut items: Vec<serde_json::Value> = Vec::new();
                let n = v.len();
                let mut i: usize = 0;
                while i < n
                    invariant
                        *self == JsonValue::Array(*v),
                        n == v@.len(),
                        i <= n,
                        items@.len() == i,
                        forall|j: int| 0 <= j < i ==> #[trigger] items@[j] == serde_of(v@[j].view_of()),
                    decreases n - i,
                {
                    assert(decreases_to!(self => self->Array_0));
                    assert(decreases_to!(v => v@));
                    assert(decreases_to!(v@ => v@[i as int]));
                    items.push(v[i].to_serde());
                    i += 1;
                }
                proof {
                    let views = items_view(v@, n as int);
                    lemma_items_view_index(v@, n as int);
                    lemma_serde_items_index(views, n as int);
                    assert(items@ =~= serde_items(views, views.len() as int));
                }
                value_array(items)
            },
            JsonValue::Object(v) => {
                let mut members: Vec<(String, serde_json::Value)> = Vec::new();
                let n = v.len();
                let mut i: usize = 0;
                while i < n
                    invariant
                        *self == JsonValue::Object(*v),
                        n == v@.len(),
                        i <= n,
                        members@.len() == i,
                        forall|j: int| 0 <= j < i ==> (#[trigger] members@[j]).0@ == v@[j].0@
                            && members@[j].1 == serde_of(v@[j].1.view_of()),
                    decreases n - i,
                {
                    assert(decreases_to!(self => self->Object_0));
                    assert(decreases_to!(v => v@));
                    assert(decreases_to!(v@ => v@[i as int]));
                    assert(decreases_to!(v@[i as int] => v@[i as int].1));
                    let member = &v[i];
                    let value = member.1.to_serde();
                    members.push((member.0.clone(), value));
                    i += 1;
                }
                proof {
                    let views = members_view(v@, n as int);
                    lemma_members_view_index(v@, n as int);
                    lemma_serde_members_index(views, n as int);
                    let flat = members@.map_values(|m: (String, serde_json::Value)| (m.0@, m.1));
                    assert(flat =~= serde_members(views, views.len() as int));
                }
                value_object(members)
            },
        }
    }

    /// The value written as indented JSON text, by `serde_json`.
    pub fn to_pretty_string(&self) -> (r: String)
        ensures
            r@ == pretty_of(serde_of(self.view_of())),
    {
        let v = self.to_serde();
        pretty_text(&v)
    }
}

} // verus!
