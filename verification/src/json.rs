//! A JSON document model held as plain values: numbers keep their JSON text,
//! objects keep their members in order (values converted from parsed JSON
//! list members by key, so equal documents have equal models).

use vstd::prelude::*;
use crate::text::{chars_of, string_of, digit_char};

verus! {

/// A JSON value.
pub enum JsonValue {
    Null,
    Bool(bool),
    /// A number, kept as its JSON text (for example `42` or `2.5`).
    Number(String),
    String(String),
    Array(Vec<JsonValue>),
    /// Members in order; a well-formed object holds each key once.
    Object(Vec<(String, JsonValue)>),
}

/// The mathematical value of a JSON value: texts instead of strings.
pub enum JsonView {
    Null,
    Bool(bool),
    Number(Seq<char>),
    String(Seq<char>),
    Array(Seq<JsonView>),
    Object(Seq<(Seq<char>, JsonView)>),
}

/// Views of a sequence of values.
pub open spec fn array_view(s: Seq<JsonValue>) -> Seq<JsonView>
    decreases s,
{
    if s.len() == 0 {
        Seq::empty()
    } else {
        array_view(s.drop_last()).push(s.last().view())
    }
}

/// Views of a sequence of object members.
pub open spec fn members_view(s: Seq<(String, JsonValue)>) -> Seq<(Seq<char>, JsonView)>
    decreases s,
{
    if s.len() == 0 {
        Seq::empty()
    } else {
        members_view(s.drop_last()).push((s.last().0@, s.last().1.view()))
    }
}

impl JsonValue {
    /// The value's view.
    pub open spec fn view(self) -> JsonView
        decreases self,
    {
        match self {
            JsonValue::Null => JsonView::Null,
            JsonValue::Bool(b) => JsonView::Bool(b),
            JsonValue::Number(n) => JsonView::Number(n@),
            JsonValue::String(s) => JsonView::String(s@),
            JsonValue::Array(v) => JsonView::Array(array_view(v@)),
            JsonValue::Object(m) => JsonView::Object(members_view(m@)),
        }
    }
}

pub proof fn lemma_array_view(s: Seq<JsonValue>)
    ensures
        array_view(s).len() == s.len(),
        forall|i: int| 0 <= i < s.len() ==> #[trigger] array_view(s)[i] == s[i].view(),
    decreases s.len(),
{
    if s.len() > 0 {
        lemma_array_view(s.drop_last());
        assert forall|i: int| 0 <= i < s.len() implies #[trigger] array_view(s)[i] == s[i].view() by {
            if i < s.len() - 1 {
                assert(s.drop_last()[i] == s[i]);
            }
        }
    }
}

pub proof fn lemma_members_view(s: Seq<(String, JsonValue)>)
    ensures
        members_view(s).len() == s.len(),
        forall|i: int| 0 <= i < s.len() ==> #[trigger] members_view(s)[i] == (s[i].0@, s[i].1.view()),
    decreases s.len(),
{
    if s.len() > 0 {
        lemma_members_view(s.drop_last());
        assert forall|i: int| 0 <= i < s.len() implies #[trigger] members_view(s)[i] == (s[i].0@, s[i].1.view()) by {
            if i < s.len() - 1 {
                assert(s.drop_last()[i] == s[i]);
            }
        }
    }
}

/// Copy of a sequence of values.
fn copy_array(v: &Vec<JsonValue>) -> (r: Vec<JsonValue>)
    ensures
        array_view(r@) == array_view(v@),
    decreases v@,
{
    let mut out: Vec<JsonValue> = Vec::new();
    let mut i: usize = 0;
    while i < v.len()
        invariant
            i <= v@.len(),
            out@.len() == i,
            forall|j: int| 0 <= j < i ==> out@[j].view() == v@[j].view(),
        decreases v@.len() - i,
    {
        proof {
            assert(decreases_to!(v@ => v@[i as int]));
        }
        let x = v[i].duplicate();
        out.push(x);
        i = i + 1;
    }
    proof {
        lemma_array_view(out@);
        lemma_array_view(v@);
        assert(array_view(out@) =~= array_view(v@));
    }
    out
}

/// Copy of a sequence of members.
fn copy_members(m: &Vec<(String, JsonValue)>) -> (r: Vec<(String, JsonValue)>)
    ensures
        members_view(r@) == members_view(m@),
    decreases m@,
{
    let mut out: Vec<(String, JsonValue)> = Vec::new();
    let mut i: usize = 0;
    while i < m.len()
        invariant
            i <= m@.len(),
            out@.len() == i,
            forall|j: int| 0 <= j < i ==> out@[j].0@ == m@[j].0@ && out@[j].1.view() == m@[j].1.view(),
        decreases m@.len() - i,
    {
        proof {
            assert(decreases_to!(m@ => m@[i as int]));
            assert(decreases_to!(m@[i as int] => m@[i as int].1));
        }
        let x = m[i].1.duplicate();
        out.push((m[i].0.clone(), x));
        i = i + 1;
    }
    proof {
        lemma_members_view(out@);
        lemma_members_view(m@);
        assert(members_view(out@) =~= members_view(m@));
    }
    out
}

impl JsonValue {
    /// A copy of this value.
    pub fn duplicate(&self) -> (r: JsonValue)
        ensures
            r.view() == self.view(),
        decreases self,
    {
        match self {
            JsonValue::Null => JsonValue::Null,
            JsonValue::Bool(b) => JsonValue::Bool(*b),
            JsonValue::Number(n) => JsonValue::Number(n.clone()),
            JsonValue::String(s) => JsonValue::String(s.clone()),
            JsonValue::Array(v) => JsonValue::Array(copy_array(v)),
            JsonValue::Object(m) => JsonValue::Object(copy_members(m)),
        }
    }
}


fn arrays_equal(a: &Vec<JsonValue>, b: &Vec<JsonValue>) -> (r: bool)
    ensures
        r == (array_view(a@) == array_view(b@)),
    decreases a@,
{
    proof {
        lemma_array_view(a@);
        lemma_array_view(b@);
    }
    if a.len() != b.len() {
        return false;
    }
    let mut i: usize = 0;
    while i < a.len()
        invariant
            i <= a@.len(),
            a@.len() == b@.len(),
            array_view(a@).len() == a@.len(),
            array_view(b@).len() == b@.len(),
            forall|j: int| 0 <= j < a@.len() ==> #[trigger] array_view(a@)[j] == a@[j].view(),
            forall|j: int| 0 <= j < b@.len() ==> #[trigger] array_view(b@)[j] == b@[j].view(),
            forall|j: int| 0 <= j < i ==> a@[j].view() == b@[j].view(),
        decreases a@.len() - i,
    {
        proof {
            assert(decreases_to!(a@ => a@[i as int]));
        }
        if !json_equal(&a[i], &b[i]) {
            assert(array_view(a@)[i as int] != array_view(b@)[i as int]);
            return false;
        }
        i = i + 1;
    }
    assert(array_view(a@) =~= array_view(b@));
    true
}

fn members_equal(a: &Vec<(String, JsonValue)>, b: &Vec<(String, JsonValue)>) -> (r: bool)
    ensures
        r == (members_view(a@) == members_view(b@)),
    decreases a@,
{
    proof {
        lemma_members_view(a@);
        lemma_members_view(b@);
    }
    if a.len() != b.len() {
        return false;
    }
    let mut i: usize = 0;
    while i < a.len()
        invariant
            i <= a@.len(),
            a@.len() == b@.len(),
            members_view(a@).len() == a@.len(),
            members_view(b@).len() == b@.len(),
            forall|j: int| 0 <= j < a@.len() ==> #[trigger] members_view(a@)[j] == (a@[j].0@, a@[j].1.view()),
            forall|j: int| 0 <= j < b@.len() ==> #[trigger] members_view(b@)[j] == (b@[j].0@, b@[j].1.view()),
            forall|j: int| 0 <= j < i ==> a@[j].0@ == b@[j].0@ && a@[j].1.view() == b@[j].1.view(),
        decreases a@.len() - i,
    {
        proof {
            assert(decreases_to!(a@ => a@[i as int]));
            assert(decreases_to!(a@[i as int] => a@[i as int].1));
        }
        if a[i].0 != b[i].0 {
            assert(members_view(a@)[i as int] != members_view(b@)[i as int]);
            return false;
        }
        if !json_equal(&a[i].1, &b[i].1) {
            assert(members_view(a@)[i as int] != members_view(b@)[i as int]);
            return false;
        }
        i = i + 1;
    }
    assert(members_view(a@) =~= members_view(b@));
    true
}

/// Whether two values are equal.
pub fn json_equal(a: &JsonValue, b: &JsonValue) -> (r: bool)
    ensures
        r == (a.view() == b.view()),
    decreases a,
{
    match (a, b) {
        (JsonValue::Null, JsonValue::Null) => true,
        (JsonValue::Bool(x), JsonValue::Bool(y)) => *x == *y,
        (JsonValue::Number(x), JsonValue::Number(y)) => *x == *y,
        (JsonValue::String(x), JsonValue::String(y)) => *x == *y,
        (JsonValue::Array(x), JsonValue::Array(y)) => arrays_equal(x, y),
        (JsonValue::Object(x), JsonValue::Object(y)) => members_equal(x, y),
        _ => false,
    }
}

/// A value counts as empty when it is null, an empty string, an empty array
/// or an empty object; numbers and booleans are never empty.
pub open spec fn view_is_empty(v: JsonView) -> bool {
    match v {
        JsonView::Null => true,
        JsonView::String(s) => s.len() == 0,
        JsonView::Array(a) => a.len() == 0,
        JsonView::Object(m) => m.len() == 0,
        _ => false,
    }
}

impl JsonValue {
    /// Whether the value is non-empty (see `view_is_empty`).
    pub fn is_not_empty(&self) -> (r: bool)
        ensures
            r == !view_is_empty(self.view()),
    {
        proof {
            match self {
                JsonValue::Array(v) => { lemma_array_view(v@); },
                JsonValue::Object(m) => { lemma_members_view(m@); },
                _ => {},
            }
        }
        match self {
            JsonValue::Null => false,
            JsonValue::String(s) => !s.as_str().is_empty(),
            JsonValue::Array(a) => a.len() != 0,
            JsonValue::Object(m) => m.len() != 0,
            _ => true,
        }
    }
}


/// Lower-case hexadecimal digit for `d` (0 to 15).
pub open spec fn hex_char(d: nat) -> char {
    if d < 10 { digit_char(d) } else if d == 10 { 'a' } else if d == 11 { 'b' } else if d == 12 { 'c' }
    else if d == 13 { 'd' } else if d == 14 { 'e' } else { 'f' }
}

/// How a character is written inside a JSON string: quotes and backslashes
/// escaped, control characters as short escapes or `\u00XX`.
pub open spec fn escape_char(c: char) -> Seq<char> {
    if c == '"' {
        seq!['\\', '"']
    } else if c == '\\' {
        seq!['\\', '\\']
    } else if c == '\x08' {
        seq!['\\', 'b']
    } else if c == '\t' {
        seq!['\\', 't']
    } else if c == '\n' {
        seq!['\\', 'n']
    } else if c == '\x0c' {
        seq!['\\', 'f']
    } else if c == '\r' {
        seq!['\\', 'r']
    } else if (c as u32) < 0x20 {
        seq!['\\', 'u', '0', '0', hex_char(((c as u32) / 16) as nat), hex_char(((c as u32) % 16) as nat)]
    } else {
        seq![c]
    }
}

/// A text with every character escaped for a JSON string.
pub open spec fn escaped(s: Seq<char>) -> Seq<char>
    decreases s.len(),
{
    if s.len() == 0 { Seq::empty() } else { escaped(s.drop_last()) + escape_char(s.last()) }
}

/// Compact JSON text of a value, as serde_json writes it: no spaces, members
/// in the value's order.
pub open spec fn json_text(v: JsonView) -> Seq<char>
    decreases v,
{
    match v {
        JsonView::Null => "null"@,
        JsonView::Bool(b) => if b { "true"@ } else { "false"@ },
        JsonView::Number(t) => t,
        JsonView::String(s) => seq!['"'] + escaped(s) + seq!['"'],
        JsonView::Array(a) => seq!['['] + items_text(a) + seq![']'],
        JsonView::Object(m) => seq!['{'] + members_text(m) + seq!['}'],
    }
}

/// Texts of the items, separated by commas.
pub open spec fn items_text(a: Seq<JsonView>) -> Seq<char>
    decreases a,
{
    if a.len() == 0 {
        Seq::empty()
    } else if a.len() == 1 {
        json_text(a[0])
    } else {
        items_text(a.drop_last()) + seq![','] + json_text(a.last())
    }
}

/// Texts of the members, `"key":value`, separated by commas.
pub open spec fn members_text(m: Seq<(Seq<char>, JsonView)>) -> Seq<char>
    decreases m,
{
    if m.len() == 0 {
        Seq::empty()
    } else if m.len() == 1 {
        seq!['"'] + escaped(m[0].0) + seq!['"', ':'] + json_text(m[0].1)
    } else {
        members_text(m.drop_last()) + seq![','] + seq!['"'] + escaped(m.last().0) + seq!['"', ':'] + json_text(m.last().1)
    }
}

fn hex_of(d: u32) -> (c: char)
    requires
        d < 16,
    ensures
        c == hex_char(d as nat),
{
    if d < 10 {
        if d == 0 { '0' } else if d == 1 { '1' } else if d == 2 { '2' } else if d == 3 { '3' }
        else if d == 4 { '4' } else if d == 5 { '5' } else if d == 6 { '6' } else if d == 7 { '7' }
        else if d == 8 { '8' } else { '9' }
    } else if d == 10 { 'a' } else if d == 11 { 'b' } else if d == 12 { 'c' }
    else if d == 13 { 'd' } else if d == 14 { 'e' } else { 'f' }
}

/// Appends the escaped form of `s` to `out`.
fn push_escaped(s: &String, out: &mut Vec<char>)
    ensures
        final(out)@ == old(out)@ + escaped(s@),
{
    let cs = chars_of(s.as_str());
    let ghost base = out@;
    let mut i: usize = 0;
    proof { assert(cs@.take(0) =~= Seq::<char>::empty()); }
    while i < cs.len()
        invariant
            i <= cs@.len(),
            cs@ == s@,
            out@ == base + escaped(cs@.take(i as int)),
        decreases cs.len() - i,
    {
        let c = cs[i];
        let ghost before = out@;
        let code = c as u32;
        if c == '"' {
            out.push('\\'); out.push('"');
        } else if c == '\\' {
            out.push('\\'); out.push('\\');
        } else if c == '\x08' {
            out.push('\\'); out.push('b');
        } else if c == '\t' {
            out.push('\\'); out.push('t');
        } else if c == '\n' {
            out.push('\\'); out.push('n');
        } else if c == '\x0c' {
            out.push('\\'); out.push('f');
        } else if c == '\r' {
            out.push('\\'); out.push('r');
        } else if code < 0x20 {
            out.push('\\'); out.push('u'); out.push('0'); out.push('0');
            out.push(hex_of(code / 16));
            out.push(hex_of(code % 16));
        } else {
            out.push(c);
        }
        proof {
            assert(out@ =~= before + escape_char(c));
            assert(cs@.take(i + 1).drop_last() =~= cs@.take(i as int));
            assert(cs@.take(i + 1).last() == c);
            assert(escaped(cs@.take(i + 1)) == escaped(cs@.take(i as int)) + escape_char(c));
            assert(out@ =~= base + escaped(cs@.take(i + 1)));
        }
        i = i + 1;
    }
    assert(cs@.take(cs@.len() as int) =~= cs@);
}

fn push_str(text: &str, out: &mut Vec<char>)
    ensures
        final(out)@ == old(out)@ + text@,
{
    let cs = chars_of(text);
    let ghost base = out@;
    let mut i: usize = 0;
    while i < cs.len()
        invariant
            i <= cs@.len(),
            cs@ == text@,
            out@ == base + cs@.take(i as int),
        decreases cs.len() - i,
    {
        out.push(cs[i]);
        assert(out@ =~= base + cs@.take(i + 1));
        i = i + 1;
    }
    assert(cs@.take(cs@.len() as int) =~= cs@);
}

/// Appends the JSON text of `v` to `out`.
pub fn push_json(v: &JsonValue, out: &mut Vec<char>)
    ensures
        final(out)@ == old(out)@ + json_text(v.view()),
    decreases v,
{
    let ghost base = out@;
    match v {
        JsonValue::Null => {
            push_str("null", out);
        },
        JsonValue::Bool(b) => {
            if *b { push_str("true", out); } else { push_str("false", out); }
        },
        JsonValue::Number(t) => {
            push_str(t.as_str(), out);
        },
        JsonValue::String(s) => {
            out.push('"');
            push_escaped(s, out);
            out.push('"');
            assert(out@ =~= base + json_text(v.view()));
        },
        JsonValue::Array(a) => {
            proof { lemma_array_view(a@); }
            out.push('[');
            let mut i: usize = 0;
            while i < a.len()
                invariant
                    i <= a@.len(),
                    *v == JsonValue::Array(*a),
                    array_view(a@).len() == a@.len(),
                    forall|j: int| 0 <= j < a@.len() ==> #[trigger] array_view(a@)[j] == a@[j].view(),
                    out@ == base + seq!['['] + items_text(array_view(a@).take(i as int)),
                decreases a@.len() - i,
            {
                proof {
                    assert(decreases_to!(*v => (*v)->Array_0));
                    assert(decreases_to!(*a => a@));
                    assert(decreases_to!(a@ => a@[i as int]));
                    assert(decreases_to!(*v => a@[i as int]));
                    let t = array_view(a@).take(i + 1);
                    assert(t.drop_last() =~= array_view(a@).take(i as int));
                    assert(t.last() == a@[i as int].view());
                    if i == 0 {
                        assert(t.len() == 1);
                        assert(array_view(a@).take(0) =~= Seq::<JsonView>::empty());
                    }
                }
                if i > 0 {
                    out.push(',');
                }
                push_json(&a[i], out);
                i = i + 1;
            }
            out.push(']');
            proof {
                assert(array_view(a@).take(a@.len() as int) =~= array_view(a@));
                assert(out@ =~= base + json_text(v.view()));
            }
        },
        JsonValue::Object(m) => {
            proof { lemma_members_view(m@); }
            out.push('{');
            let mut i: usize = 0;
            while i < m.len()
                invariant
                    i <= m@.len(),
                    *v == JsonValue::Object(*m),
                    members_view(m@).len() == m@.len(),
                    forall|j: int| 0 <= j < m@.len() ==> #[trigger] members_view(m@)[j] == (m@[j].0@, m@[j].1.view()),
                    out@ == base + seq!['{'] + members_text(members_view(m@).take(i as int)),
                decreases m@.len() - i,
            {
                proof {
                    assert(decreases_to!(*v => (*v)->Object_0));
                    assert(decreases_to!(*m => m@));
                    assert(decreases_to!(m@ => m@[i as int]));
                    assert(decreases_to!(m@[i as int] => m@[i as int].1));
                    assert(decreases_to!(*v => m@[i as int].1));
                    let t = members_view(m@).take(i + 1);
                    assert(t.drop_last() =~= members_view(m@).take(i as int));
                    assert(t.last() == (m@[i as int].0@, m@[i as int].1.view()));
                    if i == 0 {
                        assert(t.len() == 1);
                        assert(members_view(m@).take(0) =~= Seq::<(Seq<char>, JsonView)>::empty());
                    }
                }
                let ghost before = out@;
                if i > 0 {
                    out.push(',');
                }
                out.push('"');
                push_escaped(&m[i].0, out);
                out.push('"');
                out.push(':');
                push_json(&m[i].1, out);
                proof {
                    let t = members_view(m@).take(i + 1);
                    if i == 0 {
                        assert(out@ =~= base + seq!['{'] + members_text(t));
                    } else {
                        assert(out@ =~= base + seq!['{'] + members_text(t));
                    }
                }
                i = i + 1;
            }
            out.push('}');
            proof {
                assert(members_view(m@).take(m@.len() as int) =~= members_view(m@));
                assert(out@ =~= base + json_text(v.view()));
            }
        },
    }
}

impl JsonValue {
    /// The value's compact JSON text.
    pub fn to_json_string(&self) -> (r: String)
        ensures
            r@ == json_text(self.view()),
    {
        let mut out: Vec<char> = Vec::new();
        push_json(self, &mut out);
        assert(out@ =~= json_text(self.view()));
        string_of(out.as_slice())
    }
}

/// Views of a map's JSON values.
pub open spec fn param_views(m: Map<Seq<char>, JsonValue>) -> Map<Seq<char>, JsonView> {
    Map::new(|k: Seq<char>| m.dom().contains(k), |k: Seq<char>| m[k].view())
}

/// Setting a key and then taking views is taking views and then setting the key's view.
pub proof fn lemma_param_views_insert(m: Map<Seq<char>, JsonValue>, k: Seq<char>, v: JsonValue)
    ensures
        param_views(m.insert(k, v)) == param_views(m).insert(k, v.view()),
{
    assert(param_views(m.insert(k, v)) =~= param_views(m).insert(k, v.view()));
}
} // verus!
