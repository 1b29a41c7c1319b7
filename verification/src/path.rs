//! Dotted-path resolution against a JSON value: a path such as
//! `token.access_token` names a chain of object keys, and resolution walks
//! that chain. A path never indexes into arrays, and absence is the only
//! failure signal.

use vstd::prelude::*;
use vstd::string::StrSliceExecFns;
use vstd::string::StringExecFns;

use crate::json::JsonSpec;
use crate::json::JsonValue;
use crate::json::lemma_model_members;
use crate::json::model;
use crate::json::model_members;
use crate::text::split_on_char;
use crate::text::split_string;
use crate::text::str_eq;

verus! {

/// The segments of `s` split on `'.'`.
pub open spec fn split_on_dot(s: Seq<char>) -> Seq<Seq<char>> {
    split_on_char(s, '.')
}

/// The value of the first member of `members` whose key is `key`, if any.
pub open spec fn member_lookup(members: Seq<(Seq<char>, JsonSpec)>, key: Seq<char>) -> Option<
    JsonSpec,
>
    decreases members.len(),
{
    if members.len() == 0 {
        None
    } else if members[0].0 == key {
        Some(members[0].1)
    } else {
        member_lookup(members.drop_first(), key)
    }
}

/// One resolution step: looking `key` up in `j`, which yields nothing
/// unless `j` is an object with such a member.
pub open spec fn step(j: JsonSpec, key: Seq<char>) -> Option<JsonSpec> {
    match j {
        JsonSpec::Object(members) => member_lookup(members, key),
        _ => None,
    }
}

/// The value reached from `j` by looking up each key of `keys` in turn.
pub open spec fn resolve_keys(j: JsonSpec, keys: Seq<Seq<char>>) -> Option<JsonSpec>
    decreases keys.len(),
{
    if keys.len() == 0 {
        Some(j)
    } else {
        match step(j, keys[0]) {
            Some(next) => resolve_keys(next, keys.drop_first()),
            None => None,
        }
    }
}

/// The value that the dotted path `path` names inside `j`, if the whole
/// chain of keys exists.
pub open spec fn resolve_spec(j: JsonSpec, path: Seq<char>) -> Option<JsonSpec> {
    resolve_keys(j, split_on_dot(path))
}

/// When no member among the first `idx` matches, lookup over the whole
/// member list equals lookup over the remainder.
proof fn lemma_member_lookup_skip(members: Seq<(Seq<char>, JsonSpec)>, key: Seq<char>, idx: int)
    requires
        0 <= idx <= members.len(),
        forall|j: int| 0 <= j < idx ==> (#[trigger] members[j]).0 != key,
    ensures
        member_lookup(members, key) == member_lookup(members.skip(idx), key),
    decreases idx,
{
    if idx > 0 {
        lemma_member_lookup_skip(members.drop_first(), key, idx - 1);
        assert(members.drop_first().skip(idx - 1) =~= members.skip(idx));
    } else {
        assert(members.skip(0) =~= members);
    }
}

/// The member of `value` named by `key`, if `value` is an object that has
/// one; the first member wins when keys repeat.
pub fn lookup_member<'a>(value: &'a JsonValue, key: &str) -> (r: Option<&'a JsonValue>)
    ensures
        match r {
            Some(v) => step(value@, key@) == Some(v@),
            None => step(value@, key@) is None,
        },
{
    match value {
        JsonValue::Object(members) => {
            proof {
                lemma_model_members(members@);
                assert(*value == JsonValue::Object(*members));
                assert(value@ == JsonSpec::Object(model_members(members@)));
            }
            let ghost ms = model_members(members@);
            let n = members.len();
            let mut idx: usize = 0;
            while idx < n
                invariant
                    0 <= idx <= n,
                    n == members@.len(),
                    ms == model_members(members@),
                    value@ == JsonSpec::Object(ms),
                    ms.len() == n,
                    forall|j: int|
                        0 <= j < n ==> #[trigger] ms[j] == (members@[j].0@, model(
                            members@[j].1,
                        )),
                    forall|j: int| 0 <= j < idx ==> (#[trigger] ms[j]).0 != key@,
                decreases n - idx,
            {
                if str_eq(members[idx].0.as_str(), key) {
                    proof {
                        lemma_member_lookup_skip(ms, key@, idx as int);
                        assert(ms.skip(idx as int)[0] == ms[idx as int]);
                        assert(ms[idx as int].0 == key@);
                        assert(member_lookup(ms.skip(idx as int), key@) == Some(
                            ms[idx as int].1,
                        ));
                        assert(value@ == JsonSpec::Object(ms));
                    }
                    return Some(&members[idx].1);
                }
                idx = idx + 1;
            }
            proof {
                lemma_member_lookup_skip(ms, key@, n as int);
                assert(ms.skip(n as int) =~= Seq::<(Seq<char>, JsonSpec)>::empty());
            }
            None
        },
        _ => None,
    }
}

/// The value that the dotted path `path` names inside `root`: starting at
/// the root, each path segment is looked up as an object key, and the walk
/// stops with nothing as soon as a segment is absent or the current value
/// is not an object.
pub fn resolve<'a>(root: &'a JsonValue, path: &str) -> (r: Option<&'a JsonValue>)
    ensures
        match r {
            Some(v) => resolve_spec(root@, path@) == Some(v@),
            None => resolve_spec(root@, path@) is None,
        },
{
    let keys = split_string(path, '.');
    let ghost kseq = split_on_dot(path@);
    let mut cur = root;
    let n = keys.len();
    proof {
        assert(kseq.skip(0) =~= kseq);
    }
    let mut k: usize = 0;
    while k < n
        invariant
            0 <= k <= n,
            n == kseq.len(),
            keys.deep_view() == kseq,
            resolve_keys(cur@, kseq.skip(k as int)) == resolve_spec(root@, path@),
        decreases n - k,
    {
        proof {
            assert(keys.deep_view()[k as int] == keys@[k as int]@);
            assert(kseq.skip(k as int)[0] == kseq[k as int]);
            assert(kseq.skip(k as int).drop_first() =~= kseq.skip(k as int + 1));
        }
        match lookup_member(cur, keys[k].as_str()) {
            Some(next) => {
                cur = next;
            },
            None => {
                return None;
            },
        }
        k = k + 1;
    }
    proof {
        assert(kseq.skip(n as int) =~= Seq::<Seq<char>>::empty());
    }
    Some(cur)
}

} // verus!
