//! Configuration values and their changes: the difference between two
//! configurations written as JSON documents, a readable summary of it, and
//! lookups by dotted path.

use vstd::prelude::*;
use crate::text::{views, owned, concat, concat3, copy_string, decimal, decimal_text, str_equal, chars_of};
use crate::event_persistence::{all_digits, digits_value, digits_upto};
use crate::text::{base64_text, base64_encode};
use vstd::utf8::{encode_utf8, decode_utf8, valid_utf8};
use aes_gcm::aead::{Aead, KeyInit};
use argon2::PasswordHasher;
use base64::Engine;
use aes_gcm::aead::rand_core::RngCore;
use crate::json::{JsonValue, JsonView, json_equal, json_text, members_view, lemma_members_view};
use crate::data_source::{member_get, walk, split_text, get_member, walk_path, split_on};
use crate::event_transaction::{joined, join_with};
use crate::strmap::StrMap;
use crate::auth_plugin::opt_view;

verus! {

/// Configuration management errors.
#[derive(Debug)]
pub enum ConfigurationError {
    FileNotFound { path: String },
    InvalidFormat { message: String },
    /// The messages of the failed checks.
    ValidationFailed { errors: Vec<String> },
    EnvironmentVariableNotFound { name: String },
    EncryptionError { message: String },
    ReloadFailed { message: String },
    SecretNotFound { name: String },
    KeyringError { message: String },
    /// An input/output failure, by its message.
    Io(String),
}

/// Type of configuration change.
#[derive(Clone, Copy, Debug, PartialEq, Eq, Structural)]
pub enum ChangeType {
    Added,
    Modified,
    Removed,
}

/// A secure configuration value.
pub enum SecureValue {
    /// Plain text value.
    Plain(String),
    /// Encrypted value: base64 data and nonce, and the algorithm used.
    Encrypted { encrypted_data: String, nonce: String, algorithm: String },
    /// Reference to an environment variable, with an optional default.
    EnvVar { env_var: String, default: Option<String> },
    /// Reference to the system keyring.
    Keyring { service: String, username: String },
}

/// Types of secure storage available.
#[derive(Clone, Copy, Debug, PartialEq, Eq, Structural)]
pub enum SecureStorageType {
    Encrypted,
    Keyring,
    EnvVar,
}

/// One configuration change: where, the value before (if any), the value after, and its kind.
pub struct ConfigurationChange {
    pub path: String,
    pub old_value: Option<JsonValue>,
    pub new_value: JsonValue,
    pub change_type: ChangeType,
}

/// The view of an optional JSON value.
pub open spec fn opt_json(v: Option<JsonValue>) -> Option<JsonView> {
    match v {
        Some(x) => Some(x.view()),
        None => None,
    }
}

/// A change as plain values.
pub open spec fn change_view(c: ConfigurationChange) -> (Seq<char>, Option<JsonView>, JsonView, ChangeType) {
    (c.path@, opt_json(c.old_value), c.new_value.view(), c.change_type)
}

/// Changes as plain values.
pub open spec fn change_views(cs: Seq<ConfigurationChange>) -> Seq<(Seq<char>, Option<JsonView>, JsonView, ChangeType)> {
    cs.map_values(|c: ConfigurationChange| change_view(c))
}

/// The path of member `k` below `path` (dot-separated).
pub open spec fn child_path(path: Seq<char>, k: Seq<char>) -> Seq<char> {
    if path.len() == 0 { k } else { path + "."@ + k }
}

/// The changes from `old` to `new` at `path`: objects are compared member by
/// member (members of the old object first, in order, then members only the
/// new object has), nested objects recursively; any other differing values
/// are one modification.
pub open spec fn json_diff(path: Seq<char>, old: JsonView, new: JsonView) -> Seq<(Seq<char>, Option<JsonView>, JsonView, ChangeType)>
    decreases old,
{
    match old {
        JsonView::Object(om) => match new {
            JsonView::Object(nm) => old_side(path, om, nm) + new_side(path, om, nm, nm.len()),
            _ => seq![(path, Some(old), new, ChangeType::Modified)],
        },
        _ => if old != new { seq![(path, Some(old), new, ChangeType::Modified)] } else { Seq::empty() },
    }
}

/// Changes for the members of the old object: modified, nested, or removed.
pub open spec fn old_side(
    path: Seq<char>,
    om: Seq<(Seq<char>, JsonView)>,
    nm: Seq<(Seq<char>, JsonView)>,
) -> Seq<(Seq<char>, Option<JsonView>, JsonView, ChangeType)>
    decreases om,
{
    if om.len() == 0 {
        Seq::empty()
    } else {
        let k = om.last().0;
        let ov = om.last().1;
        let cp = child_path(path, k);
        let tail = match member_get(nm, k) {
            Some(nv) => if ov != nv {
                if ov is Object && nv is Object {
                    json_diff(cp, ov, nv)
                } else {
                    seq![(cp, Some(ov), nv, ChangeType::Modified)]
                }
            } else {
                Seq::empty()
            },
            None => seq![(cp, Some(ov), JsonView::Null, ChangeType::Removed)],
        };
        old_side(path, om.drop_last(), nm) + tail
    }
}

/// Changes for the first `n` members of the new object that the old one lacks.
pub open spec fn new_side(
    path: Seq<char>,
    om: Seq<(Seq<char>, JsonView)>,
    nm: Seq<(Seq<char>, JsonView)>,
    n: nat,
) -> Seq<(Seq<char>, Option<JsonView>, JsonView, ChangeType)>
    decreases n,
{
    if n == 0 {
        Seq::empty()
    } else {
        let k = nm[n - 1].0;
        let rest = new_side(path, om, nm, (n - 1) as nat);
        if member_get(om, k) is None {
            rest.push((child_path(path, k), None, nm[n - 1].1, ChangeType::Added))
        } else {
            rest
        }
    }
}

/// Whether no two members share a key.
pub open spec fn unique_keys(m: Seq<(Seq<char>, JsonView)>) -> bool {
    forall|i: int, j: int| 0 <= i < j < m.len() ==> m[i].0 != m[j].0
}

proof fn lemma_member_get_unique(m: Seq<(Seq<char>, JsonView)>, i: int)
    requires
        unique_keys(m),
        0 <= i < m.len(),
    ensures
        member_get(m, m[i].0) == Some(m[i].1),
    decreases m.len(),
{
    if i > 0 {
        let rest = m.drop_first();
        assert(m[0].0 != m[i].0);
        assert(rest[i - 1] == m[i]);
        assert(unique_keys(rest)) by {
            assert forall|a: int, b: int| 0 <= a < b < rest.len() implies rest[a].0 != rest[b].0 by {
                assert(rest[a] == m[a + 1]);
                assert(rest[b] == m[b + 1]);
            }
        }
        lemma_member_get_unique(rest, i - 1);
    }
}

proof fn lemma_old_side_self(path: Seq<char>, m: Seq<(Seq<char>, JsonView)>, n: int)
    requires
        unique_keys(m),
        0 <= n <= m.len(),
    ensures
        old_side(path, m.take(n), m) == Seq::<(Seq<char>, Option<JsonView>, JsonView, ChangeType)>::empty(),
    decreases n,
{
    if n > 0 {
        let t = m.take(n);
        assert(t.drop_last() =~= m.take(n - 1));
        assert(t.last() == m[n - 1]);
        lemma_member_get_unique(m, n - 1);
        lemma_old_side_self(path, m, n - 1);
        assert(old_side(path, t, m) =~= Seq::<(Seq<char>, Option<JsonView>, JsonView, ChangeType)>::empty());
    } else {
        assert(m.take(0) =~= Seq::<(Seq<char>, JsonView)>::empty());
    }
}

proof fn lemma_new_side_self(path: Seq<char>, m: Seq<(Seq<char>, JsonView)>, n: nat)
    requires
        unique_keys(m),
        n <= m.len(),
    ensures
        new_side(path, m, m, n) == Seq::<(Seq<char>, Option<JsonView>, JsonView, ChangeType)>::empty(),
    decreases n,
{
    if n > 0 {
        lemma_member_get_unique(m, n - 1);
        lemma_new_side_self(path, m, (n - 1) as nat);
    }
}

proof fn lemma_old_side_removed(
    path: Seq<char>,
    om: Seq<(Seq<char>, JsonView)>,
    nm: Seq<(Seq<char>, JsonView)>,
    i: int,
)
    requires
        0 <= i < om.len(),
        member_get(nm, om[i].0) is None,
    ensures
        old_side(path, om, nm).contains((child_path(path, om[i].0), Some(om[i].1), JsonView::Null, ChangeType::Removed)),
    decreases om.len(),
{
    let c = (child_path(path, om[i].0), Some(om[i].1), JsonView::Null, ChangeType::Removed);
    let rest = old_side(path, om.drop_last(), nm);
    let whole = old_side(path, om, nm);
    if i == om.len() - 1 {
        assert(whole[whole.len() - 1] == c);
    } else {
        assert(om.drop_last()[i] == om[i]);
        lemma_old_side_removed(path, om.drop_last(), nm, i);
        let j = choose|j: int| 0 <= j < rest.len() && rest[j] == c;
        assert(whole[j] == rest[j]);
    }
}

/// Removal law: comparing two objects reports every member of the old one
/// whose key the new one lacks as removed, at its path, with its old value
/// and a null new value. In particular a removal never goes unreported.
pub proof fn lemma_removed_members_reported(
    path: Seq<char>,
    om: Seq<(Seq<char>, JsonView)>,
    nm: Seq<(Seq<char>, JsonView)>,
    i: int,
)
    requires
        0 <= i < om.len(),
        member_get(nm, om[i].0) is None,
    ensures
        json_diff(path, JsonView::Object(om), JsonView::Object(nm)).contains(
            (child_path(path, om[i].0), Some(om[i].1), JsonView::Null, ChangeType::Removed),
        ),
        json_diff(path, JsonView::Object(om), JsonView::Object(nm)).len() > 0,
{
    lemma_old_side_removed(path, om, nm, i);
    let a = old_side(path, om, nm);
    let b = new_side(path, om, nm, nm.len());
    let c = (child_path(path, om[i].0), Some(om[i].1), JsonView::Null, ChangeType::Removed);
    let j = choose|j: int| 0 <= j < a.len() && a[j] == c;
    assert((a + b)[j] == c);
}

proof fn lemma_new_side_added(
    path: Seq<char>,
    om: Seq<(Seq<char>, JsonView)>,
    nm: Seq<(Seq<char>, JsonView)>,
    n: nat,
    i: int,
)
    requires
        n <= nm.len(),
        0 <= i < n,
        member_get(om, nm[i].0) is None,
    ensures
        new_side(path, om, nm, n).contains((child_path(path, nm[i].0), None, nm[i].1, ChangeType::Added)),
    decreases n,
{
    let c = (child_path(path, nm[i].0), None::<JsonView>, nm[i].1, ChangeType::Added);
    let rest = new_side(path, om, nm, (n - 1) as nat);
    let whole = new_side(path, om, nm, n);
    if i == n - 1 {
        assert(whole[whole.len() - 1] == c);
    } else {
        lemma_new_side_added(path, om, nm, (n - 1) as nat, i);
        let j = choose|j: int| 0 <= j < rest.len() && rest[j] == c;
        if member_get(om, nm[n - 1].0) is None {
            assert(whole[j] == rest[j]);
        }
    }
}

/// Addition law: comparing two objects reports every member of the new one
/// whose key the old one lacks as added, at its path, with no old value and
/// its new value.
pub proof fn lemma_added_members_reported(
    path: Seq<char>,
    om: Seq<(Seq<char>, JsonView)>,
    nm: Seq<(Seq<char>, JsonView)>,
    i: int,
)
    requires
        0 <= i < nm.len(),
        member_get(om, nm[i].0) is None,
    ensures
        json_diff(path, JsonView::Object(om), JsonView::Object(nm)).contains(
            (child_path(path, nm[i].0), None, nm[i].1, ChangeType::Added),
        ),
{
    lemma_new_side_added(path, om, nm, nm.len(), i);
    let a = old_side(path, om, nm);
    let b = new_side(path, om, nm, nm.len());
    let c = (child_path(path, nm[i].0), None::<JsonView>, nm[i].1, ChangeType::Added);
    let j = choose|j: int| 0 <= j < b.len() && b[j] == c;
    assert((a + b)[a.len() + j] == c);
}

/// Modification law: values that are not both objects are reported as one
/// modification exactly when they differ.
pub proof fn lemma_scalar_diff(path: Seq<char>, old: JsonView, new: JsonView)
    requires
        !(old is Object),
    ensures
        old == new ==> json_diff(path, old, new).len() == 0,
        old != new ==> json_diff(path, old, new) == seq![(path, Some(old), new, ChangeType::Modified)],
{
}

/// A configuration compared with itself shows no change (when its top-level
/// members have distinct keys, as parsed documents do).
pub proof fn lemma_no_changes_against_itself(path: Seq<char>, v: JsonView)
    requires
        v matches JsonView::Object(m) ==> unique_keys(m),
    ensures
        json_diff(path, v, v).len() == 0,
{
    match v {
        JsonView::Object(m) => {
            lemma_old_side_self(path, m, m.len() as int);
            assert(m.take(m.len() as int) =~= m);
            lemma_new_side_self(path, m, m.len());
        },
        _ => {},
    }
}

/// Every change reported is consistent with its kind: an addition has no
/// old value, a removal has a null new value, and a modification has an old value.
pub proof fn lemma_change_kinds(path: Seq<char>, prev: JsonView, next: JsonView)
    ensures
        forall|i: int| 0 <= i < json_diff(path, prev, next).len() ==> {
            let c = #[trigger] json_diff(path, prev, next)[i];
            &&& (c.3 == ChangeType::Added ==> c.1 is None)
            &&& (c.3 == ChangeType::Removed ==> c.1 is Some && c.2 == JsonView::Null)
            &&& (c.3 == ChangeType::Modified ==> c.1 is Some)
        },
    decreases prev,
{
    match prev {
        JsonView::Object(om) => match next {
            JsonView::Object(nm) => {
                lemma_old_side_kinds(path, om, nm);
                lemma_new_side_kinds(path, om, nm, nm.len());
                let a = old_side(path, om, nm);
                let b = new_side(path, om, nm, nm.len());
                assert forall|i: int| 0 <= i < (a + b).len() implies {
                    let c = #[trigger] (a + b)[i];
                    &&& (c.3 == ChangeType::Added ==> c.1 is None)
                    &&& (c.3 == ChangeType::Removed ==> c.1 is Some && c.2 == JsonView::Null)
                    &&& (c.3 == ChangeType::Modified ==> c.1 is Some)
                } by {
                    if i < a.len() {
                        assert((a + b)[i] == a[i]);
                    } else {
                        assert((a + b)[i] == b[i - a.len()]);
                    }
                }
            },
            _ => {},
        },
        _ => {},
    }
}

proof fn lemma_old_side_kinds(path: Seq<char>, om: Seq<(Seq<char>, JsonView)>, nm: Seq<(Seq<char>, JsonView)>)
    ensures
        forall|i: int| 0 <= i < old_side(path, om, nm).len() ==> {
            let c = #[trigger] old_side(path, om, nm)[i];
            &&& (c.3 == ChangeType::Added ==> c.1 is None)
            &&& (c.3 == ChangeType::Removed ==> c.1 is Some && c.2 == JsonView::Null)
            &&& (c.3 == ChangeType::Modified ==> c.1 is Some)
        },
    decreases om,
{
    if om.len() > 0 {
        lemma_old_side_kinds(path, om.drop_last(), nm);
        let k = om.last().0;
        let ov = om.last().1;
        let cp = child_path(path, k);
        if let Some(nv) = member_get(nm, k) {
            if ov != nv && ov is Object && nv is Object {
                lemma_change_kinds(cp, ov, nv);
            }
        }
        let a = old_side(path, om.drop_last(), nm);
        let whole = old_side(path, om, nm);
        assert forall|i: int| 0 <= i < whole.len() implies {
            let c = #[trigger] whole[i];
            &&& (c.3 == ChangeType::Added ==> c.1 is None)
            &&& (c.3 == ChangeType::Removed ==> c.1 is Some && c.2 == JsonView::Null)
            &&& (c.3 == ChangeType::Modified ==> c.1 is Some)
        } by {
            if i < a.len() {
                assert(whole[i] == a[i]);
            }
        }
    }
}

proof fn lemma_new_side_kinds(path: Seq<char>, om: Seq<(Seq<char>, JsonView)>, nm: Seq<(Seq<char>, JsonView)>, n: nat)
    ensures
        forall|i: int| 0 <= i < new_side(path, om, nm, n).len() ==> (#[trigger] new_side(path, om, nm, n)[i]).3
            == ChangeType::Added && new_side(path, om, nm, n)[i].1 is None,
    decreases n,
{
    if n > 0 {
        lemma_new_side_kinds(path, om, nm, (n - 1) as nat);
    }
}

fn child_path_of(path: &String, k: &String) -> (r: String)
    ensures
        r@ == child_path(path@, k@),
{
    if path.as_str().is_empty() {
        copy_string(k)
    } else {
        concat3(path.as_str(), ".", k.as_str())
    }
}

fn push_change(
    changes: &mut Vec<ConfigurationChange>,
    path: String,
    old_value: Option<JsonValue>,
    new_value: JsonValue,
    change_type: ChangeType,
)
    ensures
        change_views(final(changes)@) == change_views(old(changes)@).push(
            (path@, opt_json(old_value), new_value.view(), change_type),
        ),
{
    let ghost before = changes@;
    changes.push(ConfigurationChange { path, old_value, new_value, change_type });
    assert(change_views(changes@) =~= change_views(before).push(change_view(changes@.last())));
}

/// Appends the changes from `prev` to `next` at `path` to `changes`.
pub fn compare_json_values(path: &String, prev: &JsonValue, next: &JsonValue, changes: &mut Vec<ConfigurationChange>)
    ensures
        change_views(final(changes)@) == change_views(old(changes)@) + json_diff(path@, prev.view(), next.view()),
    decreases prev,
{
    let ghost base = change_views(changes@);
    match prev {
        JsonValue::Object(om) => match next {
            JsonValue::Object(nm) => {
                proof {
                    lemma_members_view(om@);
                    lemma_members_view(nm@);
                    assert(members_view(om@).take(0) =~= Seq::<(Seq<char>, JsonView)>::empty());
                }
                let ghost omv = members_view(om@);
                let ghost nmv = members_view(nm@);
                let mut i: usize = 0;
                while i < om.len()
                    invariant
                        i <= om@.len(),
                        *prev == JsonValue::Object(*om),
                        *next == JsonValue::Object(*nm),
                        omv == members_view(om@),
                        nmv == members_view(nm@),
                        omv.len() == om@.len(),
                        forall|j: int| 0 <= j < om@.len() ==> #[trigger] omv[j] == (om@[j].0@, om@[j].1.view()),
                        change_views(changes@) == base + old_side(path@, omv.take(i as int), nmv),
                    decreases om@.len() - i,
                {
                    proof {
                        assert(decreases_to!(*prev => (*prev)->Object_0));
                        assert(decreases_to!(*om => om@));
                        assert(decreases_to!(om@ => om@[i as int]));
                        assert(decreases_to!(om@[i as int] => om@[i as int].1));
                        assert(decreases_to!(*prev => om@[i as int].1));
                        let t = omv.take(i + 1);
                        assert(t.drop_last() =~= omv.take(i as int));
                        assert(t.last() == omv[i as int]);
                    }
                    let key = &om[i].0;
                    let ov = &om[i].1;
                    let cp = child_path_of(path, key);
                    let ghost prev = change_views(changes@);
                    match get_member(next, key) {
                        Some(nv) => {
                            if !json_equal(ov, nv) {
                                let both = match (ov, nv) {
                                    (JsonValue::Object(_), JsonValue::Object(_)) => true,
                                    _ => false,
                                };
                                if both {
                                    compare_json_values(&cp, ov, nv, changes);
                                } else {
                                    push_change(changes, cp, Some(ov.duplicate()), nv.duplicate(), ChangeType::Modified);
                                }
                            } else {
                                assert(change_views(changes@) =~= prev + Seq::<(Seq<char>, Option<JsonView>, JsonView, ChangeType)>::empty());
                            }
                        },
                        None => {
                            push_change(changes, cp, Some(ov.duplicate()), JsonValue::Null, ChangeType::Removed);
                        },
                    }
                    i = i + 1;
                }
                proof {
                    assert(omv.take(om@.len() as int) =~= omv);
                }
                let ghost mid = change_views(changes@);
                let mut j: usize = 0;
                while j < nm.len()
                    invariant
                        j <= nm@.len(),
                        *prev == JsonValue::Object(*om),
                        nmv == members_view(nm@),
                        omv == members_view(om@),
                        nmv.len() == nm@.len(),
                        forall|q: int| 0 <= q < nm@.len() ==> #[trigger] nmv[q] == (nm@[q].0@, nm@[q].1.view()),
                        change_views(changes@) == mid + new_side(path@, omv, nmv, j as nat),
                    decreases nm@.len() - j,
                {
                    let key = &nm[j].0;
                    assert(nmv[j as int].0 == key@);
                    match get_member(prev, key) {
                        None => {
                            let cp = child_path_of(path, key);
                            push_change(changes, cp, None, nm[j].1.duplicate(), ChangeType::Added);
                        },
                        Some(_) => {},
                    }
                    j = j + 1;
                }
                proof {
                    assert(change_views(changes@) =~= base + json_diff(path@, prev.view(), next.view()));
                }
            },
            _ => {
                push_change(changes, copy_string(path), Some(prev.duplicate()), next.duplicate(), ChangeType::Modified);
                proof {
                    assert(next.view() !is Object);
                }
            },
        },
        _ => {
            if !json_equal(prev, next) {
                push_change(changes, copy_string(path), Some(prev.duplicate()), next.duplicate(), ChangeType::Modified);
            } else {
                assert(change_views(changes@) =~= base + json_diff(path@, prev.view(), next.view()));
            }
        },
    }
}

/// The changes from one configuration document to another.
pub fn compare_configurations(old_config: &JsonValue, new_config: &JsonValue) -> (r: Vec<ConfigurationChange>)
    ensures
        change_views(r@) == json_diff(Seq::empty(), old_config.view(), new_config.view()),
{
    let mut changes: Vec<ConfigurationChange> = Vec::new();
    let root = owned("");
    proof { reveal_strlit(""); }
    assert(root@ =~= Seq::<char>::empty());
    assert(change_views(changes@) =~= Seq::<(Seq<char>, Option<JsonView>, JsonView, ChangeType)>::empty());
    compare_json_values(&root, old_config, new_config, &mut changes);
    assert(change_views(changes@) =~= json_diff(Seq::empty(), old_config.view(), new_config.view()));
    changes
}

/// The value at a dotted path in a configuration document, if there is one.
pub fn get_value(config: &JsonValue, path: &str) -> (r: Option<JsonValue>)
    ensures
        opt_json(r) == walk(config.view(), split_text(path@, '.'), false),
{
    let parts = split_on(path, '.');
    match walk_path(config, &parts, false) {
        Some(v) => Some(v.duplicate()),
        None => None,
    }
}

/// The summary line of one change.
pub open spec fn change_line(c: (Seq<char>, Option<JsonView>, JsonView, ChangeType)) -> Seq<char> {
    let old_text = match c.1 {
        Some(v) => json_text(v),
        None => "null"@,
    };
    match c.3 {
        ChangeType::Added => "+ "@ + c.0 + ": "@ + json_text(c.2),
        ChangeType::Modified => "~ "@ + c.0 + ": "@ + old_text + " -> "@ + json_text(c.2),
        ChangeType::Removed => "- "@ + c.0 + ": "@ + old_text,
    }
}

/// How many of the changes are of kind `t`.
pub open spec fn count_kind(cs: Seq<(Seq<char>, Option<JsonView>, JsonView, ChangeType)>, t: ChangeType) -> nat
    decreases cs.len(),
{
    if cs.len() == 0 {
        0
    } else {
        count_kind(cs.drop_last(), t) + if cs.last().3 == t { 1nat } else { 0nat }
    }
}

/// The summary of a list of changes: a header with the counts of each kind,
/// then one line per change, at most ten lines followed by how many more there are.
pub open spec fn summary_text(cs: Seq<(Seq<char>, Option<JsonView>, JsonView, ChangeType)>) -> Seq<char> {
    if cs.len() == 0 {
        "No changes detected"@
    } else {
        let header = "Configuration changes: "@ + decimal(count_kind(cs, ChangeType::Added)) + " added, "@
            + decimal(count_kind(cs, ChangeType::Modified)) + " modified, "@
            + decimal(count_kind(cs, ChangeType::Removed)) + " removed"@;
        let lines = cs.map_values(|c: (Seq<char>, Option<JsonView>, JsonView, ChangeType)| change_line(c));
        if cs.len() <= 10 {
            header + "\n"@ + joined(lines, "\n"@)
        } else {
            header + "\n"@ + joined(lines.take(10), "\n"@) + "... and "@ + decimal((cs.len() - 10) as nat)
                + " more changes"@
        }
    }
}

fn line_of(c: &ConfigurationChange) -> (r: String)
    ensures
        r@ == change_line(change_view(*c)),
{
    let old_text = match &c.old_value {
        Some(v) => v.to_json_string(),
        None => owned("null"),
    };
    let new_text = c.new_value.to_json_string();
    match c.change_type {
        ChangeType::Added => {
            let mut s = concat3("+ ", c.path.as_str(), ": ");
            s.append(new_text.as_str());
            s
        },
        ChangeType::Modified => {
            let mut s = concat3("~ ", c.path.as_str(), ": ");
            s.append(old_text.as_str());
            s.append(" -> ");
            s.append(new_text.as_str());
            s
        },
        ChangeType::Removed => {
            let mut s = concat3("- ", c.path.as_str(), ": ");
            s.append(old_text.as_str());
            s
        },
    }
}

/// A readable summary of configuration changes.
pub fn get_change_summary(changes: &Vec<ConfigurationChange>) -> (r: String)
    ensures
        r@ == summary_text(change_views(changes@)),
{
    let ghost cv = change_views(changes@);
    if changes.len() == 0 {
        return owned("No changes detected");
    }
    let mut lines: Vec<String> = Vec::new();
    let mut added: u64 = 0;
    let mut modified: u64 = 0;
    let mut removed: u64 = 0;
    let mut i: usize = 0;
    proof {
        assert(cv.take(0) =~= Seq::<(Seq<char>, Option<JsonView>, JsonView, ChangeType)>::empty());
    }
    while i < changes.len()
        invariant
            i <= changes@.len(),
            cv == change_views(changes@),
            added == count_kind(cv.take(i as int), ChangeType::Added),
            modified == count_kind(cv.take(i as int), ChangeType::Modified),
            removed == count_kind(cv.take(i as int), ChangeType::Removed),
            added + modified + removed == i,
            views(lines@) == cv.take(i as int).map_values(
                |c: (Seq<char>, Option<JsonView>, JsonView, ChangeType)| change_line(c),
            ),
        decreases changes.len() - i,
    {
        let c = &changes[i];
        proof {
            let t = cv.take(i + 1);
            assert(t.drop_last() =~= cv.take(i as int));
            assert(t.last() == change_view(*c));
        }
        match c.change_type {
            ChangeType::Added => { added = added + 1; },
            ChangeType::Modified => { modified = modified + 1; },
            ChangeType::Removed => { removed = removed + 1; },
        }
        let ghost before = views(lines@);
        lines.push(line_of(c));
        proof {
            assert(views(lines@) =~= before.push(change_line(change_view(*c))));
            assert(views(lines@) =~= cv.take(i + 1).map_values(
                |c: (Seq<char>, Option<JsonView>, JsonView, ChangeType)| change_line(c),
            ));
        }
        i = i + 1;
    }
    proof {
        assert(cv.take(changes@.len() as int) =~= cv);
    }
    let mut header = owned("Configuration changes: ");
    header.append(decimal_text(added).as_str());
    header.append(" added, ");
    header.append(decimal_text(modified).as_str());
    header.append(" modified, ");
    header.append(decimal_text(removed).as_str());
    header.append(" removed");
    header.append("\n");
    if lines.len() <= 10 {
        let body = join_with(&lines, "\n");
        header.append(body.as_str());
        header
    } else {
        let mut first: Vec<String> = Vec::new();
        let mut k: usize = 0;
        while k < 10
            invariant
                k <= 10,
                10 < lines@.len(),
                first@.len() == k,
                forall|q: int| 0 <= q < k ==> (#[trigger] first@[q])@ == lines@[q]@,
            decreases 10 - k,
        {
            first.push(copy_string(&lines[k]));
            k = k + 1;
        }
        proof {
            assert(views(first@) =~= views(lines@).take(10));
        }
        let body = join_with(&first, "\n");
        header.append(body.as_str());
        header.append("... and ");
        header.append(decimal_text((lines.len() - 10) as u64).as_str());
        header.append(" more changes");
        header
    }
}

impl ConfigurationError {
    /// The message this error reads as.
    pub open spec fn text(&self) -> Seq<char> {
        match self {
            ConfigurationError::FileNotFound { path } => "Configuration file not found: "@ + path@,
            ConfigurationError::InvalidFormat { message } => "Invalid configuration format: "@ + message@,
            ConfigurationError::ValidationFailed { errors } => "Configuration validation failed: "@
                + debug_list(views(errors@)),
            ConfigurationError::EnvironmentVariableNotFound { name } => "Environment variable not found: "@ + name@,
            ConfigurationError::EncryptionError { message } => "Encryption/decryption error: "@ + message@,
            ConfigurationError::ReloadFailed { message } => "Configuration reload failed: "@ + message@,
            ConfigurationError::SecretNotFound { name } => "Secret not found: "@ + name@,
            ConfigurationError::KeyringError { message } => "Keyring error: "@ + message@,
            ConfigurationError::Io(m) => "IO error: "@ + m@,
        }
    }
}

/// Debug rendering of a list of strings, as std's `Debug` writes it
/// (`["a", "b"]`, with quotes and escapes).
pub uninterp spec fn debug_list(items: Seq<Seq<char>>) -> Seq<char>;

/// std's `Debug` formatting of a list of strings.
#[verifier::external_body]
pub(crate) fn debug_strings(items: &Vec<String>) -> (r: String)
    ensures
        r@ == debug_list(views(items@)),
{
    format!("{:?}", items)
}

impl ConfigurationError {
    /// The message of this error.
    pub fn message(&self) -> (r: String)
        ensures
            r@ == self.text(),
    {
        match self {
            ConfigurationError::FileNotFound { path } => concat("Configuration file not found: ", path.as_str()),
            ConfigurationError::InvalidFormat { message } => concat("Invalid configuration format: ", message.as_str()),
            ConfigurationError::ValidationFailed { errors } => {
                let d = debug_strings(errors);
                concat("Configuration validation failed: ", d.as_str())
            },
            ConfigurationError::EnvironmentVariableNotFound { name } =>
                concat("Environment variable not found: ", name.as_str()),
            ConfigurationError::EncryptionError { message } => concat("Encryption/decryption error: ", message.as_str()),
            ConfigurationError::ReloadFailed { message } => concat("Configuration reload failed: ", message.as_str()),
            ConfigurationError::SecretNotFound { name } => concat("Secret not found: ", name.as_str()),
            ConfigurationError::KeyringError { message } => concat("Keyring error: ", message.as_str()),
            ConfigurationError::Io(m) => concat("IO error: ", m.as_str()),
        }
    }
}


/// Retry settings of test execution. Delays are in milliseconds.
pub struct RetryConfig {
    pub max_attempts: u32,
    pub base_delay_ms: u64,
    pub max_delay_ms: u64,
    /// Growth factor of the delay between attempts, as the bit pattern of a double.
    pub backoff_multiplier_bits: u64,
}

/// Rate limiting of requests.
pub struct RateLimitConfig {
    /// Requests per second, as the bit pattern of a double.
    pub requests_per_second_bits: u64,
    pub burst_capacity: u32,
}

/// Test execution settings.
pub struct ExecutionConfig {
    /// Default execution strategy (serial, parallel, distributed).
    pub default_strategy: String,
    /// Maximum concurrent executions for the parallel strategy.
    pub max_concurrency: usize,
    /// Request timeout in seconds.
    pub request_timeout: u64,
    pub retry: RetryConfig,
    pub rate_limit: RateLimitConfig,
}

/// Plugin settings.
pub struct ConfigPluginConfig {
    pub plugin_dir: String,
    pub auto_load: bool,
    pub hot_reload: bool,
    /// Settings of each plugin, by plugin name.
    pub plugins: StrMap<JsonValue>,
}

/// Report settings.
pub struct ReportingConfig {
    pub output_dir: String,
    /// Enabled report formats.
    pub formats: Vec<String>,
    pub templates: StrMap<JsonValue>,
}

/// Authentication settings.
pub struct ConfigAuthConfig {
    pub default_method: Option<String>,
    /// Authentication configurations by name.
    pub methods: StrMap<JsonValue>,
}

/// Data source settings.
pub struct ConfigDataSourceConfig {
    pub default_type: String,
    /// Data source configurations by name.
    pub sources: StrMap<JsonValue>,
}

/// Settings of one environment.
pub struct EnvironmentConfig {
    pub name: String,
    pub base_urls: StrMap<String>,
    pub auth_overrides: StrMap<JsonValue>,
    pub variables: StrMap<String>,
}

/// The whole configuration.
pub struct Configuration {
    pub execution: ExecutionConfig,
    pub plugins: ConfigPluginConfig,
    pub reporting: ReportingConfig,
    pub auth: ConfigAuthConfig,
    pub data_sources: ConfigDataSourceConfig,
    /// Environment-specific settings, by environment name.
    pub environments: StrMap<EnvironmentConfig>,
    /// Further values, by name.
    pub custom: StrMap<JsonValue>,
}

/// Whether the double with these bits is greater than zero (a NaN is not).
pub open spec fn double_is_positive(bits: u64) -> bool {
    0 < bits <= 0x7FF0_0000_0000_0000
}

/// Whether the double with these bits is at most zero (a NaN is not).
pub open spec fn double_at_most_zero(bits: u64) -> bool {
    !double_is_positive(bits) && bits % 0x8000_0000_0000_0000 <= 0x7FF0_0000_0000_0000
}

fn positive_double(bits: u64) -> (r: bool)
    ensures
        r == double_is_positive(bits),
{
    0 < bits && bits <= 0x7FF0_0000_0000_0000
}

fn at_most_zero_double(bits: u64) -> (r: bool)
    ensures
        r == double_at_most_zero(bits),
{
    let magnitude: u64 = if bits >= 0x8000_0000_0000_0000 { bits - 0x8000_0000_0000_0000 } else { bits };
    assert(magnitude == bits % 0x8000_0000_0000_0000);
    !(0 < bits && bits <= 0x7FF0_0000_0000_0000) && magnitude <= 0x7FF0_0000_0000_0000
}

/// The configuration used when no file provides one: serial execution with up
/// to 10 concurrent requests, 30 s timeouts, 3 attempts from 1 s doubling up
/// to 30 s, 10 requests per second with bursts of 20, plugins from
/// `plugins`, JUnit and HTML reports to `reports`, file data sources.
pub fn default_configuration() -> (c: Configuration)
    ensures
        c.execution.default_strategy@ == "serial"@,
        c.execution.max_concurrency == 10,
        c.execution.request_timeout == 30,
        c.execution.retry.max_attempts == 3,
        c.execution.retry.base_delay_ms == 1000,
        c.execution.retry.max_delay_ms == 30000,
        c.execution.retry.backoff_multiplier_bits == 0x4000_0000_0000_0000,
        c.execution.rate_limit.requests_per_second_bits == 0x4024_0000_0000_0000,
        c.execution.rate_limit.burst_capacity == 20,
        c.plugins.plugin_dir@ == "plugins"@,
        c.plugins.auto_load,
        !c.plugins.hot_reload,
        c.plugins.plugins@ == Map::<Seq<char>, JsonValue>::empty(),
        c.reporting.output_dir@ == "reports"@,
        views(c.reporting.formats@) == seq!["junit"@, "html"@],
        c.reporting.templates@ == Map::<Seq<char>, JsonValue>::empty(),
        c.auth.default_method is None,
        c.auth.methods@ == Map::<Seq<char>, JsonValue>::empty(),
        c.data_sources.default_type@ == "file"@,
        c.data_sources.sources@ == Map::<Seq<char>, JsonValue>::empty(),
        c.environments@ == Map::<Seq<char>, EnvironmentConfig>::empty(),
        c.custom@ == Map::<Seq<char>, JsonValue>::empty(),
{
    let formats = vec![owned("junit"), owned("html")];
    assert(views(formats@) =~= seq!["junit"@, "html"@]);
    Configuration {
        execution: ExecutionConfig {
            default_strategy: owned("serial"),
            max_concurrency: 10,
            request_timeout: 30,
            retry: RetryConfig {
                max_attempts: 3,
                base_delay_ms: 1000,
                max_delay_ms: 30000,
                backoff_multiplier_bits: 0x4000_0000_0000_0000,
            },
            rate_limit: RateLimitConfig { requests_per_second_bits: 0x4024_0000_0000_0000, burst_capacity: 20 },
        },
        plugins: ConfigPluginConfig {
            plugin_dir: owned("plugins"),
            auto_load: true,
            hot_reload: false,
            plugins: StrMap::new(),
        },
        reporting: ReportingConfig { output_dir: owned("reports"), formats, templates: StrMap::new() },
        auth: ConfigAuthConfig { default_method: None, methods: StrMap::new() },
        data_sources: ConfigDataSourceConfig { default_type: owned("file"), sources: StrMap::new() },
        environments: StrMap::new(),
        custom: StrMap::new(),
    }
}

/// `over`'s text where it is not empty, else `base`'s.
pub open spec fn unless_empty(over: Seq<char>, base: Seq<char>) -> Seq<char> {
    if over.len() > 0 { over } else { base }
}

/// `over`'s count where it is positive, else `base`'s.
pub open spec fn unless_zero(over: int, base: int) -> int {
    if over > 0 { over } else { base }
}

/// What a merge keeps of every part of the configuration but the retry and
/// rate-limit settings: the overriding texts that are not empty, counts that
/// are positive, lists that are not empty and a default method that is set;
/// the overriding flags; and the union of the named entries, the overriding
/// entry winning on a shared name.
pub open spec fn merged_except_retry(c: Configuration, base: Configuration, over: Configuration) -> bool {
    &&& c.execution.default_strategy@ == unless_empty(over.execution.default_strategy@, base.execution.default_strategy@)
    &&& c.execution.max_concurrency == unless_zero(over.execution.max_concurrency as int, base.execution.max_concurrency as int)
    &&& c.execution.request_timeout == unless_zero(over.execution.request_timeout as int, base.execution.request_timeout as int)
    &&& c.plugins.plugin_dir@ == unless_empty(over.plugins.plugin_dir@, base.plugins.plugin_dir@)
    &&& c.plugins.auto_load == over.plugins.auto_load
    &&& c.plugins.hot_reload == over.plugins.hot_reload
    &&& c.plugins.plugins@ == base.plugins.plugins@.union_prefer_right(over.plugins.plugins@)
    &&& c.reporting.output_dir@ == unless_empty(over.reporting.output_dir@, base.reporting.output_dir@)
    &&& views(c.reporting.formats@) == if over.reporting.formats@.len() > 0 {
        views(over.reporting.formats@)
    } else {
        views(base.reporting.formats@)
    }
    &&& c.reporting.templates@ == base.reporting.templates@.union_prefer_right(over.reporting.templates@)
    &&& opt_view(c.auth.default_method) == if over.auth.default_method is Some {
        opt_view(over.auth.default_method)
    } else {
        opt_view(base.auth.default_method)
    }
    &&& c.auth.methods@ == base.auth.methods@.union_prefer_right(over.auth.methods@)
    &&& c.data_sources.default_type@ == unless_empty(over.data_sources.default_type@, base.data_sources.default_type@)
    &&& c.data_sources.sources@ == base.data_sources.sources@.union_prefer_right(over.data_sources.sources@)
    &&& c.environments@ == base.environments@.union_prefer_right(over.environments@)
    &&& c.custom@ == base.custom@.union_prefer_right(over.custom@)
}

/// What a merge keeps of the retry and rate-limit settings: the overriding
/// positive counts and positive factors.
pub open spec fn merged_retry(c: ExecutionConfig, base: ExecutionConfig, over: ExecutionConfig) -> bool {
    &&& c.retry.max_attempts == unless_zero(over.retry.max_attempts as int, base.retry.max_attempts as int)
    &&& c.retry.base_delay_ms == unless_zero(over.retry.base_delay_ms as int, base.retry.base_delay_ms as int)
    &&& c.retry.max_delay_ms == unless_zero(over.retry.max_delay_ms as int, base.retry.max_delay_ms as int)
    &&& c.retry.backoff_multiplier_bits == if double_is_positive(over.retry.backoff_multiplier_bits) {
        over.retry.backoff_multiplier_bits
    } else {
        base.retry.backoff_multiplier_bits
    }
    &&& c.rate_limit.requests_per_second_bits == if double_is_positive(over.rate_limit.requests_per_second_bits) {
        over.rate_limit.requests_per_second_bits
    } else {
        base.rate_limit.requests_per_second_bits
    }
    &&& c.rate_limit.burst_capacity == unless_zero(over.rate_limit.burst_capacity as int, base.rate_limit.burst_capacity as int)
}

fn pick_text(base: String, over: String) -> (r: String)
    ensures
        r@ == unless_empty(over@, base@),
{
    if over.as_str().is_empty() { base } else { over }
}

/// Merges the settings of `over` into `base`, leaving the retry and
/// rate-limit settings of `base` as they are (the merge used on reload).
pub fn merge_configurations_static(base: Configuration, over: Configuration) -> (r: Result<Configuration, ConfigurationError>)
    ensures
        r matches Ok(c) && merged_except_retry(c, base, over) && c.execution.retry == base.execution.retry
            && c.execution.rate_limit == base.execution.rate_limit,
{
    let ghost (b0, o0) = (base, over);
    let Configuration {
        execution: be,
        plugins: bp,
        reporting: br,
        auth: ba,
        data_sources: bd,
        environments: mut benv,
        custom: mut bcustom,
    } = base;
    let Configuration {
        execution: oe,
        plugins: op,
        reporting: or,
        auth: oa,
        data_sources: od,
        environments: oenv,
        custom: ocustom,
    } = over;
    let execution = ExecutionConfig {
        default_strategy: pick_text(be.default_strategy, oe.default_strategy),
        max_concurrency: if oe.max_concurrency > 0 { oe.max_concurrency } else { be.max_concurrency },
        request_timeout: if oe.request_timeout > 0 { oe.request_timeout } else { be.request_timeout },
        retry: be.retry,
        rate_limit: be.rate_limit,
    };
    let mut plugin_settings = bp.plugins;
    plugin_settings.extend_from(op.plugins);
    let plugins = ConfigPluginConfig {
        plugin_dir: pick_text(bp.plugin_dir, op.plugin_dir),
        auto_load: op.auto_load,
        hot_reload: op.hot_reload,
        plugins: plugin_settings,
    };
    let mut templates = br.templates;
    templates.extend_from(or.templates);
    let reporting = ReportingConfig {
        output_dir: pick_text(br.output_dir, or.output_dir),
        formats: if or.formats.len() > 0 { or.formats } else { br.formats },
        templates,
    };
    let mut methods = ba.methods;
    methods.extend_from(oa.methods);
    let auth = ConfigAuthConfig {
        default_method: if oa.default_method.is_some() { oa.default_method } else { ba.default_method },
        methods,
    };
    let mut sources = bd.sources;
    sources.extend_from(od.sources);
    let data_sources = ConfigDataSourceConfig { default_type: pick_text(bd.default_type, od.default_type), sources };
    benv.extend_from(oenv);
    bcustom.extend_from(ocustom);
    Ok(Configuration { execution, plugins, reporting, auth, data_sources, environments: benv, custom: bcustom })
}

/// Merges the settings of `over` into `base`: texts that are not empty,
/// counts and factors that are positive, lists that are not empty and a
/// default method that is set replace those of `base`; the flags are taken
/// from `over`; named entries are added, those of `over` winning.
pub fn merge_configurations(base: Configuration, over: Configuration) -> (r: Result<Configuration, ConfigurationError>)
    ensures
        r matches Ok(c) && merged_except_retry(c, base, over) && merged_retry(c.execution, base.execution, over.execution),
{
    let b_retry = RetryConfig {
        max_attempts: base.execution.retry.max_attempts,
        base_delay_ms: base.execution.retry.base_delay_ms,
        max_delay_ms: base.execution.retry.max_delay_ms,
        backoff_multiplier_bits: base.execution.retry.backoff_multiplier_bits,
    };
    let o_retry = RetryConfig {
        max_attempts: over.execution.retry.max_attempts,
        base_delay_ms: over.execution.retry.base_delay_ms,
        max_delay_ms: over.execution.retry.max_delay_ms,
        backoff_multiplier_bits: over.execution.retry.backoff_multiplier_bits,
    };
    let b_rate = RateLimitConfig {
        requests_per_second_bits: base.execution.rate_limit.requests_per_second_bits,
        burst_capacity: base.execution.rate_limit.burst_capacity,
    };
    let o_rate = RateLimitConfig {
        requests_per_second_bits: over.execution.rate_limit.requests_per_second_bits,
        burst_capacity: over.execution.rate_limit.burst_capacity,
    };
    let mut c = match merge_configurations_static(base, over) {
        Ok(c) => c,
        Err(e) => return Err(e),
    };
    c.execution.retry = RetryConfig {
        max_attempts: if o_retry.max_attempts > 0 { o_retry.max_attempts } else { b_retry.max_attempts },
        base_delay_ms: if o_retry.base_delay_ms > 0 { o_retry.base_delay_ms } else { b_retry.base_delay_ms },
        max_delay_ms: if o_retry.max_delay_ms > 0 { o_retry.max_delay_ms } else { b_retry.max_delay_ms },
        backoff_multiplier_bits: if positive_double(o_retry.backoff_multiplier_bits) {
            o_retry.backoff_multiplier_bits
        } else {
            b_retry.backoff_multiplier_bits
        },
    };
    c.execution.rate_limit = RateLimitConfig {
        requests_per_second_bits: if positive_double(o_rate.requests_per_second_bits) {
            o_rate.requests_per_second_bits
        } else {
            b_rate.requests_per_second_bits
        },
        burst_capacity: if o_rate.burst_capacity > 0 { o_rate.burst_capacity } else { b_rate.burst_capacity },
    };
    Ok(c)
}


/// The messages of the checks a configuration fails, in order: a known
/// execution strategy, positive concurrency, timeout, attempts and base
/// delay, and a positive request rate.
pub open spec fn validation_errors(c: Configuration) -> Seq<Seq<char>> {
    let s = c.execution.default_strategy@;
    let e1: Seq<Seq<char>> = if s == "serial"@ || s == "parallel"@ || s == "distributed"@ {
        Seq::empty()
    } else {
        seq!["Invalid execution strategy: "@ + s]
    };
    let e2 = if c.execution.max_concurrency == 0 { e1.push("max_concurrency must be greater than 0"@) } else { e1 };
    let e3 = if c.execution.request_timeout == 0 { e2.push("request_timeout must be greater than 0"@) } else { e2 };
    let e4 = if c.execution.retry.max_attempts == 0 { e3.push("retry.max_attempts must be greater than 0"@) } else { e3 };
    let e5 = if c.execution.retry.base_delay_ms == 0 { e4.push("retry.base_delay_ms must be greater than 0"@) } else { e4 };
    if double_at_most_zero(c.execution.rate_limit.requests_per_second_bits) {
        e5.push("rate_limit.requests_per_second must be greater than 0"@)
    } else {
        e5
    }
}

/// The messages of all checks a configuration fails: those of
/// `validation_errors`, then one for each directory that neither exists nor
/// can be created.
pub open spec fn full_validation_errors(c: Configuration, plugin_dir_ready: bool, output_dir_ready: bool) -> Seq<Seq<char>> {
    let e = validation_errors(c);
    let e1 = if plugin_dir_ready {
        e
    } else {
        e.push("Cannot create plugin directory: "@ + path_debug_text(c.plugins.plugin_dir@))
    };
    if output_dir_ready {
        e1
    } else {
        e1.push("Cannot create output directory: "@ + path_debug_text(c.reporting.output_dir@))
    }
}

/// How std's `Debug` writes a path (quoted, with escapes).
pub uninterp spec fn path_debug_text(path: Seq<char>) -> Seq<char>;

/// std's `Debug` formatting of the path named by a text.
#[verifier::external_body]
fn path_debug(path: &str) -> (r: String)
    ensures
        r@ == path_debug_text(path@),
{
    format!("{:?}", std::path::Path::new(path))
}

fn push_text(errors: &mut Vec<String>, m: String)
    ensures
        views(final(errors)@) == views(old(errors)@).push(m@),
{
    let ghost before = errors@;
    errors.push(m);
    assert(views(errors@) =~= views(before).push(m@));
}

fn check_settings(c: &Configuration) -> (r: Vec<String>)
    ensures
        views(r@) == validation_errors(*c),
{
    let mut errors: Vec<String> = Vec::new();
    let s = c.execution.default_strategy.as_str();
    if !(str_equal(s, "serial") || str_equal(s, "parallel") || str_equal(s, "distributed")) {
        push_text(&mut errors, concat("Invalid execution strategy: ", s));
    }
    if c.execution.max_concurrency == 0 {
        push_text(&mut errors, owned("max_concurrency must be greater than 0"));
    }
    if c.execution.request_timeout == 0 {
        push_text(&mut errors, owned("request_timeout must be greater than 0"));
    }
    if c.execution.retry.max_attempts == 0 {
        push_text(&mut errors, owned("retry.max_attempts must be greater than 0"));
    }
    if c.execution.retry.base_delay_ms == 0 {
        push_text(&mut errors, owned("retry.base_delay_ms must be greater than 0"));
    }
    if at_most_zero_double(c.execution.rate_limit.requests_per_second_bits) {
        push_text(&mut errors, owned("rate_limit.requests_per_second must be greater than 0"));
    }
    proof {
        let ghost e0: Seq<Seq<char>> = Seq::empty();
        assert(views(Seq::<String>::empty()) =~= e0);
    }
    errors
}

/// Checks a configuration's settings (the check used on reload): fails with
/// all messages of `validation_errors` when there are any.
pub fn validate_configuration_static(config: &Configuration) -> (r: Result<(), ConfigurationError>)
    ensures
        validation_errors(*config).len() == 0 ==> r is Ok,
        validation_errors(*config).len() > 0 ==> (r matches Err(ConfigurationError::ValidationFailed { errors })
            && views(errors@) == validation_errors(*config)),
{
    let errors = check_settings(config);
    if errors.len() > 0 {
        Err(ConfigurationError::ValidationFailed { errors })
    } else {
        Ok(())
    }
}

/// Checks a configuration, with whether its plugin and output directories
/// exist or could be created: fails with all messages of
/// `full_validation_errors` when there are any.
pub fn validate_configuration(config: &Configuration, plugin_dir_ready: bool, output_dir_ready: bool) -> (r: Result<(), ConfigurationError>)
    ensures
        full_validation_errors(*config, plugin_dir_ready, output_dir_ready).len() == 0 ==> r is Ok,
        full_validation_errors(*config, plugin_dir_ready, output_dir_ready).len() > 0 ==> (
        r matches Err(ConfigurationError::ValidationFailed { errors })
            && views(errors@) == full_validation_errors(*config, plugin_dir_ready, output_dir_ready)),
{
    let mut errors = check_settings(config);
    if !plugin_dir_ready {
        let d = path_debug(config.plugins.plugin_dir.as_str());
        push_text(&mut errors, concat("Cannot create plugin directory: ", d.as_str()));
    }
    if !output_dir_ready {
        let d = path_debug(config.reporting.output_dir.as_str());
        push_text(&mut errors, concat("Cannot create output directory: ", d.as_str()));
    }
    if errors.len() > 0 {
        Err(ConfigurationError::ValidationFailed { errors })
    } else {
        Ok(())
    }
}

/// The number a text denotes as an unsigned integer not above `bound`: an
/// optional `+`, then digits (std's parsing of unsigned integers).
pub open spec fn parse_unsigned_text(s: Seq<char>, bound: u64) -> Option<u64> {
    let t = if s.len() > 0 && s[0] == '+' { s.drop_first() } else { s };
    if all_digits(t) && digits_value(t) <= bound { Some(digits_value(t) as u64) } else { None }
}

/// Parses an unsigned integer not above `bound`.
pub fn parse_unsigned(s: &str, bound: u64) -> (r: Option<u64>)
    ensures
        r == parse_unsigned_text(s@, bound),
{
    let cs = chars_of(s);
    let from: usize = if cs.len() > 0 && cs[0] == '+' { 1 } else { 0 };
    proof {
        if from == 1 {
            assert(cs@.subrange(1, cs@.len() as int) =~= s@.drop_first());
        } else {
            assert(cs@.subrange(0, cs@.len() as int) =~= s@);
        }
    }
    digits_upto(&cs, from, bound)
}

/// The configuration with the values given through the environment applied:
/// the execution strategy, the concurrency and request timeout (which must
/// parse as numbers), and the plugin and output directories.
pub open spec fn overridden(
    c: Configuration,
    r: Configuration,
    strategy: Option<String>,
    concurrency: Option<u64>,
    timeout: Option<u64>,
    plugin_dir: Option<String>,
    output_dir: Option<String>,
) -> bool {
    &&& r.execution.default_strategy@ == match strategy { Some(s) => s@, None => c.execution.default_strategy@ }
    &&& r.execution.max_concurrency == match concurrency { Some(n) => n as usize, None => c.execution.max_concurrency }
    &&& r.execution.request_timeout == match timeout { Some(n) => n, None => c.execution.request_timeout }
    &&& r.execution.retry == c.execution.retry
    &&& r.execution.rate_limit == c.execution.rate_limit
    &&& r.plugins.plugin_dir@ == match plugin_dir { Some(d) => d@, None => c.plugins.plugin_dir@ }
    &&& r.plugins.auto_load == c.plugins.auto_load
    &&& r.plugins.hot_reload == c.plugins.hot_reload
    &&& r.plugins.plugins == c.plugins.plugins
    &&& r.reporting.output_dir@ == match output_dir { Some(d) => d@, None => c.reporting.output_dir@ }
    &&& r.reporting.formats == c.reporting.formats
    &&& r.reporting.templates == c.reporting.templates
    &&& r.auth == c.auth
    &&& r.data_sources == c.data_sources
    &&& r.environments == c.environments
    &&& r.custom == c.custom
}

/// Applies the values read from the environment (`API_TEST_EXECUTION_STRATEGY`,
/// `API_TEST_MAX_CONCURRENCY`, `API_TEST_REQUEST_TIMEOUT`,
/// `API_TEST_PLUGIN_DIR`, `API_TEST_OUTPUT_DIR`) to a configuration. A
/// concurrency or timeout that is not a number is refused.
pub fn apply_environment_overrides(
    config: Configuration,
    strategy: Option<String>,
    concurrency: Option<String>,
    timeout: Option<String>,
    plugin_dir: Option<String>,
    output_dir: Option<String>,
) -> (r: Result<Configuration, String>)
    ensures
        ({
            let cn = match concurrency { Some(t) => parse_unsigned_text(t@, usize::MAX as u64), None => None };
            let tn = match timeout { Some(t) => parse_unsigned_text(t@, u64::MAX), None => None };
            if concurrency is Some && cn is None {
                r matches Err(m) && m@ == "Invalid API_TEST_MAX_CONCURRENCY value"@
            } else if timeout is Some && tn is None {
                r matches Err(m) && m@ == "Invalid API_TEST_REQUEST_TIMEOUT value"@
            } else {
                r matches Ok(c) && overridden(config, c, strategy, cn, tn, plugin_dir, output_dir)
            }
        }),
{
    let ghost c0 = config;
    let mut config = config;
    match strategy {
        Some(s) => { config.execution.default_strategy = s; },
        None => {},
    }
    match &concurrency {
        Some(t) => {
            match parse_unsigned(t.as_str(), usize::MAX as u64) {
                Some(n) => { config.execution.max_concurrency = n as usize; },
                None => { return Err(owned("Invalid API_TEST_MAX_CONCURRENCY value")); },
            }
        },
        None => {},
    }
    match &timeout {
        Some(t) => {
            match parse_unsigned(t.as_str(), u64::MAX) {
                Some(n) => { config.execution.request_timeout = n; },
                None => { return Err(owned("Invalid API_TEST_REQUEST_TIMEOUT value")); },
            }
        },
        None => {},
    }
    match plugin_dir {
        Some(d) => { config.plugins.plugin_dir = d; },
        None => {},
    }
    match output_dir {
        Some(d) => { config.reporting.output_dir = d; },
        None => {},
    }
    Ok(config)
}

// ---------------------------------------------------------------- secure values

/// How the base64 crate describes why a text is not a canonical encoding.
pub uninterp spec fn base64_error_text(s: Seq<char>) -> Seq<char>;

/// Decodes standard base64 (the base64 crate's `STANDARD` engine, which
/// accepts canonical encodings only).
#[verifier::external_body]
pub(crate) fn base64_decode(s: &str) -> (r: Result<Vec<u8>, String>)
    ensures
        match r {
            Ok(b) => base64_text(b@) == s@ && forall|x: Seq<u8>| base64_text(x) == s@ ==> x == b@,
            Err(e) => (forall|b: Seq<u8>| base64_text(b) != s@) && e@ == base64_error_text(s@),
        },
{
    base64::engine::general_purpose::STANDARD.decode(s).map_err(|e| e.to_string())
}

/// The AES-256-GCM ciphertext (with its tag) of a plaintext under a key
/// and nonce, with no associated data.
pub uninterp spec fn aes_gcm_seal(key: Seq<u8>, nonce: Seq<u8>, plaintext: Seq<u8>) -> Seq<u8>;

/// Encrypts with AES-256-GCM (the aes-gcm crate's `Aead::encrypt`); it
/// fails only for plaintexts too long for the cipher.
#[verifier::external_body]
fn aes_gcm_encrypt(key: &Vec<u8>, nonce: &Vec<u8>, plaintext: &[u8]) -> (r: Result<Vec<u8>, String>)
    requires
        key@.len() == 32,
        nonce@.len() == 12,
    ensures
        r matches Ok(c) ==> c@ == aes_gcm_seal(key@, nonce@, plaintext@),
        r matches Err(e) ==> e@ == "aead::Error"@,
{
    let cipher = aes_gcm::Aes256Gcm::new(aes_gcm::Key::<aes_gcm::Aes256Gcm>::from_slice(key));
    cipher.encrypt(aes_gcm::Nonce::from_slice(nonce), plaintext).map_err(|e| e.to_string())
}

/// Decrypts with AES-256-GCM (the aes-gcm crate's `Aead::decrypt`): a
/// ciphertext opens exactly when it is the sealing of some plaintext under
/// the same key and nonce, and then to that plaintext.
#[verifier::external_body]
fn aes_gcm_decrypt(key: &Vec<u8>, nonce: &Vec<u8>, ciphertext: &[u8]) -> (r: Result<Vec<u8>, String>)
    requires
        key@.len() == 32,
        nonce@.len() == 12,
    ensures
        match r {
            Ok(x) => ciphertext@ == aes_gcm_seal(key@, nonce@, x@)
                && forall|p: Seq<u8>| ciphertext@ == aes_gcm_seal(key@, nonce@, p) ==> x@ == p,
            Err(e) => e@ == "aead::Error"@ && forall|p: Seq<u8>| ciphertext@ != aes_gcm_seal(key@, nonce@, p),
        },
{
    let cipher = aes_gcm::Aes256Gcm::new(aes_gcm::Key::<aes_gcm::Aes256Gcm>::from_slice(key));
    cipher.decrypt(aes_gcm::Nonce::from_slice(nonce), ciphertext).map_err(|e| e.to_string())
}

/// Twelve random bytes from the operating system (the aead crate's `OsRng`).
#[verifier::external_body]
fn random_nonce() -> (r: Vec<u8>)
    ensures
        r@.len() == 12,
{
    let mut nonce = vec![0u8; 12];
    aes_gcm::aead::OsRng.fill_bytes(&mut nonce);
    nonce
}

/// A random salt, as the password-hash crate writes it (`SaltString::generate`).
#[verifier::external_body]
fn random_salt() -> (r: String) {
    argon2::password_hash::SaltString::generate(&mut aes_gcm::aead::OsRng).as_str().to_string()
}

/// What deriving a key from a password and a salt gives: the first 32 bytes
/// of the Argon2 hash (default parameters), or the error's message.
pub uninterp spec fn argon2_derivation(password: Seq<char>, salt: Seq<char>) -> Result<Seq<u8>, Seq<char>>;

/// The first 32 bytes of the Argon2 hash (default parameters) of a password
/// with a salt (the argon2 crate's `hash_password`); the error's message
/// when hashing fails.
#[verifier::external_body]
fn argon2_key(password: &str, salt: &str) -> (r: Result<Vec<u8>, String>)
    ensures
        match r {
            Ok(k) => k@.len() == 32 && argon2_derivation(password@, salt@) == Ok::<Seq<u8>, Seq<char>>(k@),
            Err(e) => argon2_derivation(password@, salt@) == Err::<Seq<u8>, Seq<char>>(e@),
        },
{
    let salt = argon2::password_hash::SaltString::from_b64(salt).map_err(|e| e.to_string())?;
    let hash = argon2::Argon2::default().hash_password(password.as_bytes(), &salt).map_err(|e| e.to_string())?;
    hash.hash.map(|h| h.as_bytes()[..32].to_vec()).ok_or_else(|| String::from("missing hash output"))
}

/// How std describes why bytes are not UTF-8.
pub uninterp spec fn utf8_error_text(bytes: Seq<u8>) -> Seq<char>;

/// The text UTF-8 bytes encode (std's `String::from_utf8`).
#[verifier::external_body]
fn string_from_utf8(bytes: Vec<u8>) -> (r: Result<String, String>)
    ensures
        match r {
            Ok(s) => valid_utf8(bytes@) && s@ == decode_utf8(bytes@),
            Err(e) => !valid_utf8(bytes@) && e@ == utf8_error_text(bytes@),
        },
{
    let b = bytes.clone();
    String::from_utf8(bytes).map_err(|_| String::from_utf8(b).unwrap_err().to_string())
}

/// What reading a secret from the system keyring gave.
pub enum KeyringRead {
    /// The secret.
    Found(String),
    /// The entry could not be opened, with the keyring's message.
    EntryFailed(String),
    /// There is no secret.
    Missing,
}

/// Keeps the master key that encrypts configuration secrets.
pub struct SecureConfigManager {
    master_key: Option<Vec<u8>>,
    keyring_service: String,
}

/// Whether `v` is `plaintext` encrypted under `key` with some nonce, as
/// `encrypt_value` writes it.
pub open spec fn encrypted_by(v: SecureValue, key: Seq<u8>, plaintext: Seq<char>) -> bool {
    match v {
        SecureValue::Encrypted { encrypted_data, nonce, algorithm } => {
            &&& algorithm@ == "AES-256-GCM"@
            &&& exists|n: Seq<u8>| #![trigger aes_gcm_seal(key, n, encode_utf8(plaintext))] n.len() == 12
                && nonce@ == base64_text(n) && encrypted_data@ == base64_text(aes_gcm_seal(key, n, encode_utf8(plaintext)))
        },
        _ => false,
    }
}

/// What opening an encrypted value under `key` gives: the failure to
/// decode its data or its nonce from base64, the failure of decryption when
/// no plaintext seals to the data, the failure to read the plaintext as
/// UTF-8, or else the text of the plaintext.
pub open spec fn decrypted(v: SecureValue, key: Seq<u8>, r: Result<String, ConfigurationError>) -> bool {
    match v {
        SecureValue::Encrypted { encrypted_data, nonce, .. } => {
            let data = encrypted_data@;
            let nt = nonce@;
            if forall|c: Seq<u8>| #[trigger] base64_text(c) != data {
                r matches Err(e) && is_encryption_error(e, "Failed to decode encrypted data: "@ + base64_error_text(data))
            } else if forall|n: Seq<u8>| #[trigger] base64_text(n) != nt {
                r matches Err(e) && is_encryption_error(e, "Failed to decode nonce: "@ + base64_error_text(nt))
            } else {
                let c = choose|c: Seq<u8>| #[trigger] base64_text(c) == data;
                let n = choose|n: Seq<u8>| #[trigger] base64_text(n) == nt;
                if forall|q: Seq<u8>| #[trigger] aes_gcm_seal(key, n, q) != c {
                    r matches Err(e) && is_encryption_error(e, "Decryption failed: "@ + "aead::Error"@)
                } else {
                    let q = choose|q: Seq<u8>| #[trigger] aes_gcm_seal(key, n, q) == c;
                    if valid_utf8(q) {
                        r matches Ok(x) && x@ == decode_utf8(q)
                    } else {
                        r matches Err(e) && is_encryption_error(e, "Invalid UTF-8 in decrypted data: "@ + utf8_error_text(q))
                    }
                }
            }
        },
        _ => true,
    }
}

/// Whether `e` is an encryption error with message `m`.
pub open spec fn is_encryption_error(e: ConfigurationError, m: Seq<char>) -> bool {
    e matches ConfigurationError::EncryptionError { message } && message@ == m
}

/// Whether result `r` and master key `key` are what derivation outcome `d`
/// leads to: its key on success, its message after "Failed to hash password: "
/// on failure.
pub open spec fn derived_with(d: Result<Seq<u8>, Seq<char>>, r: Result<(), ConfigurationError>, key: Option<Seq<u8>>) -> bool {
    match d {
        Ok(k) => r is Ok && key == Some(k),
        Err(m) => r matches Err(e) && is_encryption_error(e, "Failed to hash password: "@ + m),
    }
}

/// Whether a secure value can be opened under `key` without the cipher
/// being handed a nonce of the wrong length: the nonce of an AES-256-GCM
/// value, once there is a master key and the data decodes, decodes to
/// twelve bytes.
pub open spec fn decryptable(key: Option<Seq<u8>>, v: SecureValue) -> bool {
    v matches SecureValue::Encrypted { encrypted_data, nonce, algorithm } ==> (
        algorithm@ == "AES-256-GCM"@ && key is Some
            && (exists|c: Seq<u8>| #[trigger] base64_text(c) == encrypted_data@)
        ==> forall|b: Seq<u8>| #[trigger] base64_text(b) == nonce@ ==> b.len() == 12)
}

/// What opening secure value `v` under master key `key` gives, with the
/// environment variable it names read as `env` and its keyring entry read as
/// `keyring`.
pub open spec fn decrypt_outcome(
    key: Option<Seq<u8>>,
    v: SecureValue,
    env: Option<String>,
    keyring: KeyringRead,
    r: Result<String, ConfigurationError>,
) -> bool {
    match v {
        SecureValue::Plain(p) => r matches Ok(x) && x@ == p@,
        SecureValue::Encrypted { algorithm, .. } => if algorithm@ != "AES-256-GCM"@ {
            r matches Err(e) && is_encryption_error(e, "Unsupported encryption algorithm: "@ + algorithm@)
        } else {
            match key {
                None => r matches Err(e) && is_encryption_error(e, "Master key not initialized"@),
                Some(k) => {
                    &&& (exists|p: Seq<char>| encrypted_by(v, k, p)) ==> (r matches Ok(x) && encrypted_by(v, k, x@))
                    &&& forall|p: Seq<char>| #[trigger] encrypted_by(v, k, p) ==> (r matches Ok(x) && x@ == p)
                    &&& decrypted(v, k, r)
                },
            }
        },
        SecureValue::EnvVar { env_var, default } => match (env, default) {
            (Some(ev), _) => r matches Ok(x) && x@ == ev@,
            (None, Some(d)) => r matches Ok(x) && x@ == d@,
            (None, None) => r matches Err(ConfigurationError::EnvironmentVariableNotFound { name }) && name@ == env_var@,
        },
        SecureValue::Keyring { service, username } => match keyring {
            KeyringRead::Found(kv) => r matches Ok(x) && x@ == kv@,
            KeyringRead::EntryFailed(m) => r matches Err(ConfigurationError::KeyringError { message })
                && message@ == "Failed to create keyring entry: "@ + m@,
            KeyringRead::Missing => r matches Err(ConfigurationError::SecretNotFound { name })
                && name@ == service@ + ":"@ + username@,
        },
    }
}

impl SecureConfigManager {
    #[verifier::type_invariant]
    spec fn key_length(&self) -> bool {
        self.master_key matches Some(k) ==> k@.len() == 32
    }

    /// The master key, once one is derived.
    pub closed spec fn master_key(&self) -> Option<Seq<u8>> {
        match self.master_key {
            Some(k) => Some(k@),
            None => None,
        }
    }

    /// The keyring service secrets are stored under.
    pub closed spec fn keyring_service(&self) -> Seq<char> {
        self.keyring_service@
    }

    /// A manager without a master key.
    pub fn new(keyring_service: &str) -> (r: Self)
        ensures
            r.master_key() is None,
            r.keyring_service() == keyring_service@,
    {
        SecureConfigManager { master_key: None, keyring_service: owned(keyring_service) }
    }

    /// Derives the master key from a password with Argon2 and a random salt:
    /// the derived key becomes the master key, or the derivation's error is
    /// reported and the master key stays as it was.
    pub fn initialize_with_password(&mut self, password: &str) -> (r: Result<(), ConfigurationError>)
        ensures
            final(self).keyring_service() == old(self).keyring_service(),
            r is Ok ==> (final(self).master_key() matches Some(k) && k.len() == 32),
            r is Err ==> final(self).master_key() == old(self).master_key(),
            exists|salt: Seq<char>| #[trigger] derived_with(argon2_derivation(password@, salt), r, final(self).master_key()),
    {
        let salt = random_salt();
        let ghost d = argon2_derivation(password@, salt@);
        match argon2_key(password, salt.as_str()) {
            Ok(k) => {
                self.master_key = Some(k);
                assert(derived_with(d, Ok(()), self.master_key()));
                Ok(())
            },
            Err(e) => {
                let r = Err(ConfigurationError::EncryptionError { message: concat("Failed to hash password: ", e.as_str()) });
                assert(derived_with(d, r, self.master_key()));
                r
            },
        }
    }

    /// Encrypts a text under the master key with a fresh nonce: the
    /// ciphertext and nonce in base64, and the algorithm's name.
    pub fn encrypt_value(&self, plaintext: &str) -> (r: Result<SecureValue, ConfigurationError>)
        ensures
            self.master_key() is None ==> (r matches Err(e) && is_encryption_error(e, "Master key not initialized"@)),
            self.master_key() matches Some(k) ==> match r {
                Ok(v) => encrypted_by(v, k, plaintext@),
                Err(e) => is_encryption_error(e, "Encryption failed: "@ + "aead::Error"@),
            },
    {
        proof { use_type_invariant(self); }
        let key = match &self.master_key {
            Some(k) => k,
            None => return Err(ConfigurationError::EncryptionError { message: owned("Master key not initialized") }),
        };
        let nonce = random_nonce();
        match aes_gcm_encrypt(key, &nonce, plaintext.as_bytes()) {
            Ok(c) => {
                let v = SecureValue::Encrypted {
                    encrypted_data: base64_encode(c.as_slice()),
                    nonce: base64_encode(nonce.as_slice()),
                    algorithm: owned("AES-256-GCM"),
                };
                assert(encrypted_by(v, key@, plaintext@));
                Ok(v)
            },
            Err(e) => Err(ConfigurationError::EncryptionError { message: concat("Encryption failed: ", e.as_str()) }),
        }
    }

    /// The text a secure value stands for: a plain value; an encrypted value
    /// opened with the master key; the value of the named environment
    /// variable (`env_value`, as read) or its default; the secret read from
    /// the keyring (`keyring`). A value `encrypt_value` made decrypts to its
    /// plaintext.
    pub fn decrypt_value(&self, secure_value: &SecureValue, env_value: Option<String>, keyring: KeyringRead) -> (r: Result<String, ConfigurationError>)
        requires
            decryptable(self.master_key(), *secure_value),
        ensures
            decrypt_outcome(self.master_key(), *secure_value, env_value, keyring, r),
    {
        proof { use_type_invariant(self); }
        match secure_value {
            SecureValue::Plain(value) => Ok(copy_string(value)),
            SecureValue::Encrypted { encrypted_data, nonce, algorithm } => {
                if !str_equal(algorithm.as_str(), "AES-256-GCM") {
                    return Err(ConfigurationError::EncryptionError {
                        message: concat("Unsupported encryption algorithm: ", algorithm.as_str()),
                    });
                }
                let key = match &self.master_key {
                    Some(k) => k,
                    None => return Err(ConfigurationError::EncryptionError { message: owned("Master key not initialized") }),
                };
                let ciphertext = match base64_decode(encrypted_data.as_str()) {
                    Ok(c) => c,
                    Err(e) => return Err(ConfigurationError::EncryptionError {
                        message: concat("Failed to decode encrypted data: ", e.as_str()),
                    }),
                };
                let nonce_bytes = match base64_decode(nonce.as_str()) {
                    Ok(n) => n,
                    Err(e) => return Err(ConfigurationError::EncryptionError {
                        message: concat("Failed to decode nonce: ", e.as_str()),
                    }),
                };
                proof {
                    let cc = choose|c: Seq<u8>| #[trigger] base64_text(c) == encrypted_data@;
                    assert(base64_text(ciphertext@) == encrypted_data@);
                    assert(cc == ciphertext@);
                    let nn = choose|n: Seq<u8>| #[trigger] base64_text(n) == nonce@;
                    assert(base64_text(nonce_bytes@) == nonce@);
                    assert(nn == nonce_bytes@);
                }
                let plaintext = match aes_gcm_decrypt(key, &nonce_bytes, ciphertext.as_slice()) {
                    Ok(p) => p,
                    Err(e) => {
                        let r = Err(ConfigurationError::EncryptionError { message: concat("Decryption failed: ", e.as_str()) });
                        proof {
                            assert forall|p: Seq<char>| !encrypted_by(*secure_value, key@, p) by {
                                if encrypted_by(*secure_value, key@, p) {
                                    let n = choose|n: Seq<u8>| #![trigger aes_gcm_seal(key@, n, encode_utf8(p))] n.len() == 12
                                        && nonce@ == base64_text(n) && encrypted_data@ == base64_text(aes_gcm_seal(key@, n, encode_utf8(p)));
                                    assert(n == nonce_bytes@);
                                    assert(aes_gcm_seal(key@, n, encode_utf8(p)) == ciphertext@);
                                }
                            }
                            assert(decrypted(*secure_value, key@, r));
                        }
                        return r;
                    },
                };
                let ghost pb = plaintext@;
                proof {
                    assert forall|p: Seq<char>| #[trigger] encrypted_by(*secure_value, key@, p) implies pb == encode_utf8(p) by {
                        let n = choose|n: Seq<u8>| #![trigger aes_gcm_seal(key@, n, encode_utf8(p))] n.len() == 12
                            && nonce@ == base64_text(n) && encrypted_data@ == base64_text(aes_gcm_seal(key@, n, encode_utf8(p)));
                        assert(n == nonce_bytes@);
                        assert(aes_gcm_seal(key@, n, encode_utf8(p)) == ciphertext@);
                    }
                    assert(aes_gcm_seal(key@, nonce_bytes@, pb) == ciphertext@);
                    let q = choose|q: Seq<u8>| #[trigger] aes_gcm_seal(key@, nonce_bytes@, q) == ciphertext@;
                    assert(q == pb);
                }
                match string_from_utf8(plaintext) {
                    Ok(text) => {
                        proof {
                            assert forall|p: Seq<char>| #[trigger] encrypted_by(*secure_value, key@, p) implies text@ == p by {
                                assert(pb == encode_utf8(p));
                                vstd::utf8::encode_utf8_decode_utf8(p);
                            }
                            let r: Result<String, ConfigurationError> = Ok(text);
                            assert(decrypted(*secure_value, key@, r));
                        }
                        Ok(text)
                    },
                    Err(e) => {
                        let r = Err(ConfigurationError::EncryptionError { message: concat("Invalid UTF-8 in decrypted data: ", e.as_str()) });
                        proof {
                            assert forall|p: Seq<char>| !encrypted_by(*secure_value, key@, p) by {
                                if encrypted_by(*secure_value, key@, p) {
                                    assert(pb == encode_utf8(p));
                                    vstd::utf8::encode_utf8_valid_utf8(p);
                                }
                            }
                            assert(decrypted(*secure_value, key@, r));
                        }
                        r
                    },
                }
            },
            SecureValue::EnvVar { env_var, default } => match env_value {
                Some(v) => Ok(v),
                None => match default {
                    Some(d) => Ok(copy_string(d)),
                    None => Err(ConfigurationError::EnvironmentVariableNotFound { name: copy_string(env_var) }),
                },
            },
            SecureValue::Keyring { service, username } => match keyring {
                KeyringRead::Found(v) => Ok(v),
                KeyringRead::EntryFailed(m) => Err(ConfigurationError::KeyringError {
                    message: concat("Failed to create keyring entry: ", m.as_str()),
                }),
                KeyringRead::Missing => Err(ConfigurationError::SecretNotFound {
                    name: concat3(service.as_str(), ":", username.as_str()),
                }),
            },
        }
    }
}

/// The keyring entry a secret is stored under: `encrypted_<key>` for
/// encrypted storage, the key itself in the keyring, none for a secret held
/// in an environment variable.
pub fn secure_value_entry(key: &str, storage_type: SecureStorageType) -> (r: Option<String>)
    ensures
        match storage_type {
            SecureStorageType::Encrypted => r matches Some(e) && e@ == "encrypted_"@ + key@,
            SecureStorageType::Keyring => r matches Some(e) && e@ == key@,
            SecureStorageType::EnvVar => r is None,
        },
{
    match storage_type {
        SecureStorageType::Encrypted => Some(concat("encrypted_", key)),
        SecureStorageType::Keyring => Some(owned(key)),
        SecureStorageType::EnvVar => None,
    }
}

/// Storing a secret as an environment variable stores nothing: the variable
/// must already be set (`present`).
pub fn env_secret_stored(key: &str, present: bool) -> (r: Result<(), ConfigurationError>)
    ensures
        present ==> r is Ok,
        !present ==> (r matches Err(ConfigurationError::EnvironmentVariableNotFound { name }) && name@ == key@),
{
    if present {
        Ok(())
    } else {
        Err(ConfigurationError::EnvironmentVariableNotFound { name: owned(key) })
    }
}

/// The value of a secret looked up in turn in the environment (`env`), the
/// keyring (`keyring`) and the encrypted store (`encrypted`, the keyring
/// entry `encrypted_<key>`): the first found, else a missing-secret error.
pub fn pick_secure_value(key: &str, env: Option<String>, keyring: Option<String>, encrypted: Option<String>) -> (r: Result<String, ConfigurationError>)
    ensures
        match (env, keyring, encrypted) {
            (Some(v), _, _) => r matches Ok(x) && x@ == v@,
            (None, Some(v), _) => r matches Ok(x) && x@ == v@,
            (None, None, Some(v)) => r matches Ok(x) && x@ == v@,
            (None, None, None) => r matches Err(ConfigurationError::SecretNotFound { name }) && name@ == key@,
        },
{
    match env {
        Some(v) => Ok(v),
        None => match keyring {
            Some(v) => Ok(v),
            None => match encrypted {
                Some(v) => Ok(v),
                None => Err(ConfigurationError::SecretNotFound { name: owned(key) }),
            },
        },
    }
}

} // verus!
