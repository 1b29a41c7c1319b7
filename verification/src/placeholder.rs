//! Placeholder substitution inside an outgoing request body: every
//! top-level string member of the form `{{NAME}}` is replaced by the
//! persisted content of the variable `NAME`, with trailing whitespace
//! trimmed. The scan is deliberately shallow: nested objects and arrays are
//! left untouched, as are non-string and non-placeholder members.
//!
//! The substitution itself takes the variable contents as a plain table, so
//! it is total and exact; the caller reads the variable files and reports
//! which file a missing variable would have come from.

use vstd::prelude::*;
use vstd::string::StrSliceExecFns;
use vstd::string::StringExecFns;

use crate::json::JsonSpec;
use crate::json::JsonValue;
use crate::json::clone_json;
use crate::json::lemma_model_members;
use crate::json::model_members;
use crate::text::str_eq;
use crate::text::trim_trailing;
use crate::text::trim_trailing_spec;

verus! {

/// Whether a string value is a placeholder: it begins with `{{` and ends
/// with `}}` (so it has at least four characters).
pub open spec fn is_placeholder(s: Seq<char>) -> bool {
    s.len() >= 4 && s[0] == '{' && s[1] == '{' && s[s.len() - 2] == '}' && s[s.len() - 1] == '}'
}

/// The variable name inside a placeholder: what stands between the braces.
pub open spec fn placeholder_name(s: Seq<char>) -> Seq<char> {
    s.subrange(2, s.len() - 2)
}

/// Whether `s` is a placeholder, computed.
pub fn is_placeholder_exec(s: &str) -> (r: bool)
    ensures
        r == is_placeholder(s@),
{
    let n = s.unicode_len();
    n >= 4 && s.get_char(0) == '{' && s.get_char(1) == '{' && s.get_char(n - 2) == '}'
        && s.get_char(n - 1) == '}'
}

/// The content stored for `name` in the variable table, if any; the first
/// entry wins when names repeat.
pub open spec fn lookup_var(vars: Seq<(Seq<char>, Seq<char>)>, name: Seq<char>) -> Option<
    Seq<char>,
>
    decreases vars.len(),
{
    if vars.len() == 0 {
        None
    } else if vars[0].0 == name {
        Some(vars[0].1)
    } else {
        lookup_var(vars.drop_first(), name)
    }
}

/// When no entry among the first `idx` matches, lookup over the whole table
/// equals lookup over the remainder.
proof fn lemma_lookup_var_skip(vars: Seq<(Seq<char>, Seq<char>)>, name: Seq<char>, idx: int)
    requires
        0 <= idx <= vars.len(),
        forall|j: int| 0 <= j < idx ==> (#[trigger] vars[j]).0 != name,
    ensures
        lookup_var(vars, name) == lookup_var(vars.skip(idx), name),
    decreases idx,
{
    if idx > 0 {
        lemma_lookup_var_skip(vars.drop_first(), name, idx - 1);
        assert(vars.drop_first().skip(idx - 1) =~= vars.skip(idx));
    } else {
        assert(vars.skip(0) =~= vars);
    }
}

/// The content stored for `name`, computed.
fn lookup_var_exec<'a>(vars: &'a Vec<(String, String)>, name: &str) -> (r: Option<&'a String>)
    ensures
        match r {
            Some(content) => lookup_var(vars.deep_view(), name@) == Some(content@),
            None => lookup_var(vars.deep_view(), name@) is None,
        },
{
    let ghost vseq = vars.deep_view();
    let n = vars.len();
    let mut i: usize = 0;
    while i < n
        invariant
            0 <= i <= n,
            n == vars@.len(),
            vseq == vars.deep_view(),
            vseq.len() == n,
            forall|j: int|
                0 <= j < n ==> #[trigger] vseq[j] == (vars@[j].0@, vars@[j].1@),
            forall|j: int| 0 <= j < i ==> (#[trigger] vseq[j]).0 != name@,
        decreases n - i,
    {
        if str_eq(vars[i].0.as_str(), name) {
            proof {
                lemma_lookup_var_skip(vseq, name@, i as int);
                assert(vseq.skip(i as int)[0] == vseq[i as int]);
            }
            return Some(&vars[i].1);
        }
        i = i + 1;
    }
    proof {
        lemma_lookup_var_skip(vseq, name@, n as int);
        assert(vseq.skip(n as int) =~= Seq::<(Seq<char>, Seq<char>)>::empty());
    }
    None
}

/// One member after substitution: a placeholder member becomes the trimmed
/// content of its variable, or the name of the missing variable; any other
/// member stays as it is.
pub open spec fn substitute_member(
    member: (Seq<char>, JsonSpec),
    vars: Seq<(Seq<char>, Seq<char>)>,
) -> Result<(Seq<char>, JsonSpec), Seq<char>> {
    match member.1 {
        JsonSpec::Text(t) => {
            if is_placeholder(t) {
                match lookup_var(vars, placeholder_name(t)) {
                    Some(content) => Ok(
                        (member.0, JsonSpec::Text(trim_trailing_spec(content))),
                    ),
                    None => Err(placeholder_name(t)),
                }
            } else {
                Ok(member)
            }
        },
        _ => Ok(member),
    }
}

/// All members after substitution, in order, or the first missing variable.
pub open spec fn substitute_members(
    members: Seq<(Seq<char>, JsonSpec)>,
    vars: Seq<(Seq<char>, Seq<char>)>,
) -> Result<Seq<(Seq<char>, JsonSpec)>, Seq<char>>
    decreases members.len(),
{
    if members.len() == 0 {
        Ok(Seq::empty())
    } else {
        match substitute_member(members[0], vars) {
            Ok(m) => match substitute_members(members.drop_first(), vars) {
                Ok(rest) => Ok(seq![m] + rest),
                Err(e) => Err(e),
            },
            Err(e) => Err(e),
        }
    }
}

/// A body after substitution: the members of an object-shaped body are
/// rewritten one by one; any other body is left untouched. The scan does
/// not recurse into nested values.
pub open spec fn substitute_spec(body: JsonSpec, vars: Seq<(Seq<char>, Seq<char>)>) -> Result<
    JsonSpec,
    Seq<char>,
> {
    match body {
        JsonSpec::Object(members) => match substitute_members(members, vars) {
            Ok(ms) => Ok(JsonSpec::Object(ms)),
            Err(e) => Err(e),
        },
        _ => Ok(body),
    }
}

/// A placeholder whose variable is not in the table: substitution names the
/// variable that could not be read.
#[derive(Clone, Debug, PartialEq, Eq)]
pub struct SubstituteError {
    pub variable: String,
}

/// `body` with every top-level `{{NAME}}` string member replaced by the
/// trimmed content the variable table holds for `NAME`; fails with the
/// first variable name that the table does not hold.
pub fn substitute(body: &JsonValue, vars: &Vec<(String, String)>) -> (r: Result<
    JsonValue,
    SubstituteError,
>)
    ensures
        match r {
            Ok(nb) => substitute_spec(body@, vars.deep_view()) == Ok::<JsonSpec, Seq<char>>(nb@),
            Err(e) => substitute_spec(body@, vars.deep_view()) == Err::<JsonSpec, Seq<char>>(
                e.variable@,
            ),
        },
{
    match body {
        JsonValue::Object(members) => {
            proof {
                lemma_model_members(members@);
                assert(*body == JsonValue::Object(*members));
                assert(body@ == JsonSpec::Object(model_members(members@)));
            }
            let ghost ms = model_members(members@);
            let ghost vseq = vars.deep_view();
            let mut out: Vec<(String, JsonValue)> = Vec::new();
            proof {
                assert(ms.skip(0) =~= ms);
            }
            let n = members.len();
            let mut i: usize = 0;
            while i < n
                invariant
                    0 <= i <= n,
                    n == members@.len(),
                    ms == model_members(members@),
                    vseq == vars.deep_view(),
                    body@ == JsonSpec::Object(ms),
                    ms.len() == n,
                    forall|j: int|
                        0 <= j < n ==> #[trigger] ms[j] == (members@[j].0@, members@[j].1@),
                    substitute_members(ms, vseq) == match substitute_members(
                        ms.skip(i as int),
                        vseq,
                    ) {
                        Ok(rest) => Ok::<Seq<(Seq<char>, JsonSpec)>, Seq<char>>(
                            model_members(out@) + rest,
                        ),
                        Err(e) => Err::<Seq<(Seq<char>, JsonSpec)>, Seq<char>>(e),
                    },
                decreases n - i,
            {
                proof {
                    lemma_model_members(out@);
                    assert(ms.skip(i as int)[0] == ms[i as int]);
                    assert(ms.skip(i as int).drop_first() =~= ms.skip(i as int + 1));
                }
                let ghost out_before = model_members(out@);
                let ghost out_seq_before = out@;
                let member = &members[i];
                let mut replaced = false;
                match &member.1 {
                    JsonValue::Text(t) => {
                        if is_placeholder_exec(t.as_str()) {
                            let tn = t.as_str().unicode_len();
                            let name = t.as_str().substring_char(2, tn - 2);
                            proof {
                                assert(name@ =~= placeholder_name(t@));
                            }
                            match lookup_var_exec(vars, name) {
                                Some(content) => {
                                    out.push(
                                        (
                                            member.0.clone(),
                                            JsonValue::Text(trim_trailing(content.as_str())),
                                        ),
                                    );
                                    replaced = true;
                                },
                                None => {
                                    return Err(
                                        SubstituteError { variable: String::from_str(name) },
                                    );
                                },
                            }
                        }
                    },
                    _ => {},
                }
                if !replaced {
                    out.push((member.0.clone(), clone_json(&member.1)));
                }
                proof {
                    lemma_model_members(out@);
                    let last = out@.len() - 1;
                    assert forall|j: int|
                        0 <= j < out_before.len() implies model_members(out@)[j] == out_before[j] by {
                        assert(out@[j] == out_seq_before[j]);
                        assert(model_members(out@)[j] == (out@[j].0@, crate::json::model(
                            out@[j].1,
                        )));
                        assert(out_before[j] == (out_seq_before[j].0@, crate::json::model(
                            out_seq_before[j].1,
                        )));
                    }
                    assert(model_members(out@)[last] == (out@[last].0@, crate::json::model(
                        out@[last].1,
                    )));
                    assert(model_members(out@)[last] == substitute_member(
                        ms[i as int],
                        vseq,
                    )->Ok_0);
                    assert(model_members(out@) =~= out_before + seq![
                        substitute_member(ms[i as int], vseq)->Ok_0,
                    ]);
                    match substitute_members(ms.skip(i as int + 1), vseq) {
                        Ok(rest) => {
                            assert(out_before + (seq![
                                substitute_member(ms[i as int], vseq)->Ok_0,
                            ] + rest) =~= model_members(out@) + rest);
                        },
                        Err(_) => {},
                    }
                }
                i = i + 1;
            }
            proof {
                assert(ms.skip(n as int) =~= Seq::<(Seq<char>, JsonSpec)>::empty());
                lemma_model_members(out@);
                assert(model_members(out@) + Seq::<(Seq<char>, JsonSpec)>::empty()
                    =~= model_members(out@));
            }
            Ok(JsonValue::Object(out))
        },
        _ => {
            let copy = clone_json(body);
            Ok(copy)
        },
    }
}

/// The names of the top-level placeholder members of an object, in order.
pub open spec fn placeholder_names_spec(members: Seq<(Seq<char>, JsonSpec)>) -> Seq<Seq<char>>
    decreases members.len(),
{
    if members.len() == 0 {
        Seq::empty()
    } else {
        let rest = placeholder_names_spec(members.drop_first());
        match members[0].1 {
            JsonSpec::Text(t) => if is_placeholder(t) {
                seq![placeholder_name(t)] + rest
            } else {
                rest
            },
            _ => rest,
        }
    }
}

/// The variable names a body's placeholders refer to: those of the
/// top-level string members of an object-shaped body; any other body
/// refers to none.
pub open spec fn placeholders_of(body: JsonSpec) -> Seq<Seq<char>> {
    match body {
        JsonSpec::Object(members) => placeholder_names_spec(members),
        _ => Seq::empty(),
    }
}

/// The variable names `body`'s placeholders refer to, in order. The caller
/// reads each variable's file and hands the table to `substitute`.
pub fn placeholder_names(body: &JsonValue) -> (r: Vec<String>)
    ensures
        r.deep_view() == placeholders_of(body@),
{
    let mut names: Vec<String> = Vec::new();
    match body {
        JsonValue::Object(members) => {
            proof {
                lemma_model_members(members@);
                assert(*body == JsonValue::Object(*members));
                assert(body@ == JsonSpec::Object(model_members(members@)));
            }
            let ghost ms = model_members(members@);
            proof {
                assert(ms.skip(0) =~= ms);
                assert(names.deep_view() =~= Seq::<Seq<char>>::empty());
            }
            let n = members.len();
            let mut i: usize = 0;
            while i < n
                invariant
                    0 <= i <= n,
                    n == members@.len(),
                    ms == model_members(members@),
                    body@ == JsonSpec::Object(ms),
                    ms.len() == n,
                    forall|j: int|
                        0 <= j < n ==> #[trigger] ms[j] == (members@[j].0@, members@[j].1@),
                    placeholder_names_spec(ms) =~= names.deep_view() + placeholder_names_spec(
                        ms.skip(i as int),
                    ),
                decreases n - i,
            {
                proof {
                    assert(ms.skip(i as int)[0] == ms[i as int]);
                    assert(ms.skip(i as int).drop_first() =~= ms.skip(i as int + 1));
                }
                match &members[i].1 {
                    JsonValue::Text(t) => {
                        if is_placeholder_exec(t.as_str()) {
                            let tn = t.as_str().unicode_len();
                            let name = t.as_str().substring_char(2, tn - 2);
                            proof {
                                assert(name@ =~= placeholder_name(t@));
                            }
                            names.push(String::from_str(name));
                            proof {
                                assert(names.deep_view() =~= names.deep_view().drop_last() + seq![
                                    placeholder_name(members@[i as int].1@->Text_0),
                                ]);
                            }
                        }
                    },
                    _ => {},
                }
                i = i + 1;
            }
            proof {
                assert(ms.skip(n as int) =~= Seq::<(Seq<char>, JsonSpec)>::empty());
            }
        },
        _ => {},
    }
    names
}

/// The conventional file a variable is persisted under: `NAME.txt` inside
/// the variable directory.
pub open spec fn variable_file_path_spec(dir: Seq<char>, name: Seq<char>) -> Seq<char> {
    dir + seq!['/'] + name + ".txt"@
}

/// The path of the file that holds the variable `name` under `dir`.
pub fn variable_file_path(dir: &str, name: &str) -> (r: String)
    ensures
        r@ == variable_file_path_spec(dir@, name@),
{
    let mut r = String::from_str(dir);
    r.append("/");
    r.append(name);
    r.append(".txt");
    proof {
        reveal_strlit("/");
        assert("/"@ =~= seq!['/']);
        assert(r@ =~= dir@ + seq!['/'] + name@ + ".txt"@);
    }
    r
}

} // verus!
