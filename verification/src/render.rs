//! Rendering a JSON value as stable, human-readable text: multi-line, with
//! two spaces of indentation per level, keys and strings quoted and escaped.
//! The exact output is pinned down by the spec functions here, so two
//! renderings of equal values are byte-identical.

use vstd::prelude::*;
use vstd::string::StrSliceExecFns;
use vstd::string::StringExecFns;

use crate::json::JsonSpec;
use crate::json::JsonValue;
use crate::json::lemma_model_members;
use crate::json::lemma_model_seq;
use crate::json::model_members;
use crate::json::model_seq;
use crate::text::int_str;
use crate::text::i64_to_string;
use crate::text::push_char;

verus! {

/// The lowercase hexadecimal digit character for `d`.
pub open spec fn hex_digit(d: int) -> char {
    if d == 0 {
        '0'
    } else if d == 1 {
        '1'
    } else if d == 2 {
        '2'
    } else if d == 3 {
        '3'
    } else if d == 4 {
        '4'
    } else if d == 5 {
        '5'
    } else if d == 6 {
        '6'
    } else if d == 7 {
        '7'
    } else if d == 8 {
        '8'
    } else if d == 9 {
        '9'
    } else if d == 10 {
        'a'
    } else if d == 11 {
        'b'
    } else if d == 12 {
        'c'
    } else if d == 13 {
        'd'
    } else if d == 14 {
        'e'
    } else {
        'f'
    }
}

/// How one character appears inside a rendered JSON string: quotes and
/// backslashes are escaped, the named control characters take their short
/// escapes, other control characters take a `\u00..` escape, and everything
/// else stands for itself.
pub open spec fn escape_char(c: char) -> Seq<char> {
    if c == '"' {
        seq!['\\', '"']
    } else if c == '\\' {
        seq!['\\', '\\']
    } else if c == '\n' {
        seq!['\\', 'n']
    } else if c == '\r' {
        seq!['\\', 'r']
    } else if c == '\t' {
        seq!['\\', 't']
    } else if (c as u32) == 8 {
        seq!['\\', 'b']
    } else if (c as u32) == 12 {
        seq!['\\', 'f']
    } else if (c as u32) < 32 {
        seq!['\\', 'u', '0', '0', hex_digit(((c as u32) as int) / 16), hex_digit(
            ((c as u32) as int) % 16,
        )]
    } else {
        seq![c]
    }
}

/// A string's characters escaped, in order.
pub open spec fn escape_string(s: Seq<char>) -> Seq<char>
    decreases s.len(),
{
    if s.len() == 0 {
        Seq::empty()
    } else {
        escape_char(s[0]) + escape_string(s.drop_first())
    }
}

/// A rendered JSON string: the escaped characters between double quotes.
pub open spec fn quoted(s: Seq<char>) -> Seq<char> {
    seq!['"'] + escape_string(s) + seq!['"']
}

/// The indentation of a nesting level: two spaces per level.
pub open spec fn indent(depth: nat) -> Seq<char>
    decreases depth,
{
    if depth == 0 {
        Seq::empty()
    } else {
        indent((depth - 1) as nat) + seq![' ', ' ']
    }
}

/// The rendered text of a JSON value standing at nesting level `depth`.
/// Empty arrays and objects render as `[]` and `{}`; others put each
/// element or member on its own indented line.
pub open spec fn render(j: JsonSpec, depth: nat) -> Seq<char>
    decreases j,
{
    match j {
        JsonSpec::Null => "null"@,
        JsonSpec::Bool(b) => if b {
            "true"@
        } else {
            "false"@
        },
        JsonSpec::Number(n) => int_str(n),
        JsonSpec::Text(s) => quoted(s),
        JsonSpec::Array(items) => if items.len() == 0 {
            "[]"@
        } else {
            seq!['['] + render_items(items, depth) + seq!['\n'] + indent(depth) + seq![']']
        },
        JsonSpec::Object(members) => if members.len() == 0 {
            "{}"@
        } else {
            seq!['{'] + render_members(members, depth) + seq!['\n'] + indent(depth) + seq!['}']
        },
    }
}

/// The rendered elements of a non-empty array at nesting level `depth`:
/// each on its own line, one level deeper, separated by commas.
pub open spec fn render_items(items: Seq<JsonSpec>, depth: nat) -> Seq<char>
    decreases items,
{
    if items.len() == 0 {
        Seq::empty()
    } else {
        let head = seq!['\n'] + indent(depth + 1) + render(items[0], depth + 1);
        if items.len() == 1 {
            head
        } else {
            head + seq![','] + render_items(items.drop_first(), depth)
        }
    }
}

/// The rendered members of a non-empty object at nesting level `depth`:
/// each `"key": value` on its own line, one level deeper, separated by
/// commas.
pub open spec fn render_members(members: Seq<(Seq<char>, JsonSpec)>, depth: nat) -> Seq<char>
    decreases members,
{
    if members.len() == 0 {
        Seq::empty()
    } else {
        let head = seq!['\n'] + indent(depth + 1) + quoted(members[0].0) + seq![':', ' ']
            + render(members[0].1, depth + 1);
        if members.len() == 1 {
            head
        } else {
            head + seq![','] + render_members(members.drop_first(), depth)
        }
    }
}

/// The lowercase hexadecimal digit character for `d`, computed.
fn hex_digit_exec(d: u32) -> (c: char)
    requires
        d < 16,
    ensures
        c == hex_digit(d as int),
{
    if d == 0 {
        '0'
    } else if d == 1 {
        '1'
    } else if d == 2 {
        '2'
    } else if d == 3 {
        '3'
    } else if d == 4 {
        '4'
    } else if d == 5 {
        '5'
    } else if d == 6 {
        '6'
    } else if d == 7 {
        '7'
    } else if d == 8 {
        '8'
    } else if d == 9 {
        '9'
    } else if d == 10 {
        'a'
    } else if d == 11 {
        'b'
    } else if d == 12 {
        'c'
    } else if d == 13 {
        'd'
    } else if d == 14 {
        'e'
    } else {
        'f'
    }
}

/// Appends the escaped form of one character.
fn push_escaped(out: &mut String, c: char)
    ensures
        final(out)@ == old(out)@ + escape_char(c),
{
    if c == '"' {
        out.append("\\\"");
        proof {
            reveal_strlit("\\\"");
            assert(final(out)@ =~= old(out)@ + escape_char(c));
        }
    } else if c == '\\' {
        out.append("\\\\");
        proof {
            reveal_strlit("\\\\");
            assert(final(out)@ =~= old(out)@ + escape_char(c));
        }
    } else if c == '\n' {
        out.append("\\n");
        proof {
            reveal_strlit("\\n");
            assert(final(out)@ =~= old(out)@ + escape_char(c));
        }
    } else if c == '\r' {
        out.append("\\r");
        proof {
            reveal_strlit("\\r");
            assert(final(out)@ =~= old(out)@ + escape_char(c));
        }
    } else if c == '\t' {
        out.append("\\t");
        proof {
            reveal_strlit("\\t");
            assert(final(out)@ =~= old(out)@ + escape_char(c));
        }
    } else {
        let code = c as u32;
        if code == 8 {
            out.append("\\b");
            proof {
                reveal_strlit("\\b");
                assert(final(out)@ =~= old(out)@ + escape_char(c));
            }
        } else if code == 12 {
            out.append("\\f");
            proof {
                reveal_strlit("\\f");
                assert(final(out)@ =~= old(out)@ + escape_char(c));
            }
        } else if code < 32 {
            out.append("\\u00");
            push_char(out, hex_digit_exec(code / 16));
            push_char(out, hex_digit_exec(code % 16));
            proof {
                reveal_strlit("\\u00");
                assert(final(out)@ =~= old(out)@ + escape_char(c));
            }
        } else {
            push_char(out, c);
            proof {
                assert(final(out)@ =~= old(out)@ + escape_char(c));
            }
        }
    }
}

/// Escaping a string one appended character at a time.
proof fn lemma_escape_snoc(s: Seq<char>, c: char)
    ensures
        escape_string(s.push(c)) == escape_string(s) + escape_char(c),
    decreases s.len(),
{
    if s.len() == 0 {
        assert(s.push(c)[0] == c);
        assert(s.push(c).drop_first() =~= Seq::<char>::empty());
        assert(escape_string(s.push(c)) == escape_char(c) + escape_string(Seq::<char>::empty()));
        assert(escape_char(c) + escape_string(Seq::<char>::empty()) =~= escape_string(s)
            + escape_char(c));
    } else {
        lemma_escape_snoc(s.drop_first(), c);
        assert(s.push(c)[0] == s[0]);
        assert(s.push(c).drop_first() =~= s.drop_first().push(c));
        assert(escape_string(s.push(c)) == escape_char(s[0]) + (escape_string(s.drop_first())
            + escape_char(c)));
        assert(escape_char(s[0]) + (escape_string(s.drop_first()) + escape_char(c)) =~= (
        escape_char(s[0]) + escape_string(s.drop_first())) + escape_char(c));
    }
}

/// The rendered form of one JSON string: quoted and escaped.
fn quote_string(s: &str) -> (r: String)
    ensures
        r@ == quoted(s@),
{
    let mut out = String::from_str("\"");
    proof {
        reveal_strlit("\"");
        assert(out@ =~= seq!['"']);
        assert(s@.take(0) =~= Seq::<char>::empty());
    }
    let n = s.unicode_len();
    let mut i: usize = 0;
    while i < n
        invariant
            0 <= i <= n,
            n == s@.len(),
            out@ == seq!['"'] + escape_string(s@.take(i as int)),
        decreases n - i,
    {
        push_escaped(&mut out, s.get_char(i));
        proof {
            lemma_escape_snoc(s@.take(i as int), s@[i as int]);
            assert(s@.take(i as int).push(s@[i as int]) =~= s@.take(i as int + 1));
            assert(out@ =~= seq!['"'] + escape_string(s@.take(i as int + 1)));
        }
        i = i + 1;
    }
    push_char(&mut out, '"');
    proof {
        assert(s@.take(n as int) =~= s@);
        assert(out@ =~= quoted(s@));
    }
    out
}

/// The rendered text of `v` at nesting level `depth`, where `ind` holds
/// that level's indentation.
fn render_value(v: &JsonValue, ind: &String, Ghost(depth): Ghost<nat>) -> (r: String)
    requires
        ind@ == indent(depth),
    ensures
        r@ == render(v@, depth),
    decreases *v,
{
    match v {
        JsonValue::Null => String::from_str("null"),
        JsonValue::Bool(b) => {
            if *b {
                String::from_str("true")
            } else {
                String::from_str("false")
            }
        },
        JsonValue::Number(n) => i64_to_string(*n),
        JsonValue::Text(s) => quote_string(s.as_str()),
        JsonValue::Array(items) => {
            proof {
                lemma_model_seq(items@);
            }
            if items.len() == 0 {
                proof {
                    assert(model_seq(items@).len() == 0);
                }
                String::from_str("[]")
            } else {
                let mut r = String::from_str("[");
                let inner = render_array(items, 0, ind, Ghost(depth));
                r.append(inner.as_str());
                r.append("\n");
                r.append(ind.as_str());
                r.append("]");
                proof {
                    reveal_strlit("[");
                    reveal_strlit("\n");
                    reveal_strlit("]");
                    assert(model_seq(items@).skip(0) =~= model_seq(items@));
                    assert(r@ =~= seq!['['] + render_items(model_seq(items@), depth) + seq!['\n']
                        + indent(depth) + seq![']']);
                }
                r
            }
        },
        JsonValue::Object(members) => {
            proof {
                lemma_model_members(members@);
            }
            if members.len() == 0 {
                proof {
                    assert(model_members(members@).len() == 0);
                }
                String::from_str("{}")
            } else {
                let mut r = String::from_str("{");
                let inner = render_object(members, 0, ind, Ghost(depth));
                r.append(inner.as_str());
                r.append("\n");
                r.append(ind.as_str());
                r.append("}");
                proof {
                    reveal_strlit("{");
                    reveal_strlit("\n");
                    reveal_strlit("}");
                    assert(model_members(members@).skip(0) =~= model_members(members@));
                    assert(r@ =~= seq!['{'] + render_members(model_members(members@), depth)
                        + seq!['\n'] + indent(depth) + seq!['}']);
                }
                r
            }
        },
    }
}

/// The rendered elements of `items` from `start` on.
fn render_array(items: &Vec<JsonValue>, start: usize, ind: &String, Ghost(depth): Ghost<nat>) -> (r:
    String)
    requires
        start < items@.len(),
        ind@ == indent(depth),
    ensures
        r@ == render_items(model_seq(items@).skip(start as int), depth),
    decreases items@, items@.len() - start,
{
    proof {
        lemma_model_seq(items@);
        assert(model_seq(items@).skip(start as int)[0] == model_seq(items@)[start as int]);
        assert(model_seq(items@).skip(start as int).drop_first() =~= model_seq(items@).skip(
            start as int + 1,
        ));
    }
    let mut child_ind = ind.clone();
    child_ind.append("  ");
    proof {
        reveal_strlit("  ");
        assert(child_ind@ =~= indent(depth + 1));
    }
    let mut r = String::from_str("\n");
    r.append(child_ind.as_str());
    let rendered = render_value(&items[start], &child_ind, Ghost(depth + 1));
    r.append(rendered.as_str());
    proof {
        reveal_strlit("\n");
        assert(r@ =~= seq!['\n'] + indent(depth + 1) + render(model_seq(items@)[start as int],
            depth + 1,
        ));
    }
    let n = items.len();
    if start + 1 < n {
        r.append(",");
        let rest = render_array(items, start + 1, ind, Ghost(depth));
        r.append(rest.as_str());
        proof {
            reveal_strlit(",");
            assert(r@ =~= render_items(model_seq(items@).skip(start as int), depth));
        }
    } else {
        proof {
            assert(model_seq(items@).skip(start as int).len() == 1);
        }
    }
    r
}

/// The rendered members of `members` from `start` on.
fn render_object(
    members: &Vec<(String, JsonValue)>,
    start: usize,
    ind: &String,
    Ghost(depth): Ghost<nat>,
) -> (r: String)
    requires
        start < members@.len(),
        ind@ == indent(depth),
    ensures
        r@ == render_members(model_members(members@).skip(start as int), depth),
    decreases members@, members@.len() - start,
{
    proof {
        lemma_model_members(members@);
        assert(model_members(members@).skip(start as int)[0] == model_members(members@)[start as int]);
        assert(model_members(members@).skip(start as int).drop_first() =~= model_members(
            members@,
        ).skip(start as int + 1));
    }
    let mut child_ind = ind.clone();
    child_ind.append("  ");
    proof {
        reveal_strlit("  ");
        assert(child_ind@ =~= indent(depth + 1));
    }
    let mut r = String::from_str("\n");
    r.append(child_ind.as_str());
    let member = &members[start];
    let key = quote_string(member.0.as_str());
    r.append(key.as_str());
    r.append(": ");
    let rendered = render_value(&member.1, &child_ind, Ghost(depth + 1));
    r.append(rendered.as_str());
    proof {
        reveal_strlit("\n");
        reveal_strlit(": ");
        assert(": "@ =~= seq![':', ' ']);
        assert(r@ =~= seq!['\n'] + indent(depth + 1) + quoted(
            model_members(members@)[start as int].0,
        ) + seq![':', ' '] + render(model_members(members@)[start as int].1, depth + 1));
    }
    let n = members.len();
    if start + 1 < n {
        r.append(",");
        let rest = render_object(members, start + 1, ind, Ghost(depth));
        r.append(rest.as_str());
        proof {
            reveal_strlit(",");
            assert(r@ =~= render_members(model_members(members@).skip(start as int), depth));
        }
    } else {
        proof {
            assert(model_members(members@).skip(start as int).len() == 1);
        }
    }
    r
}

/// The stable, human-readable rendering of `v`: multi-line, two spaces of
/// indentation per level, strings quoted and escaped.
pub fn to_pretty_string(v: &JsonValue) -> (r: String)
    ensures
        r@ == render(v@, 0),
{
    let ind = String::new();
    proof {
        assert(ind@ =~= indent(0));
    }
    render_value(v, &ind, Ghost(0 as nat))
}

} // verus!
