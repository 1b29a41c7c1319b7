//! The variable store: persisting selected response fields to files and
//! planning those writes.
//!
//! Nothing here touches the file system. A write is *planned*: the caller
//! receives the full list of file paths and contents, or the first problem
//! found, and only then performs the writes. Resolving and validating every
//! mapping before any file is touched makes a multi-file write all-or-nothing
//! at the planning stage. A small map-based model of the file system
//! (`apply_writes`, `read_file`) states what performing a plan does, and the
//! laws at the end of this module are proved against it.

use vstd::prelude::*;
use vstd::string::StrSliceExecFns;
use vstd::string::StringExecFns;

use crate::json::JsonSpec;
use crate::json::JsonValue;
use crate::json::string_form;
use crate::json::string_form_exec;
use crate::path::resolve;
use crate::path::resolve_spec;
use crate::text::find_char;
use crate::text::find_char_exec;
use crate::text::split_on_char;
use crate::text::split_string;
use crate::text::str_eq;
use crate::text::trim;
use crate::text::trim_spec;

verus! {

/// A path with a leading `~` or `~/` expanded to the home directory, when
/// one is known; any other path, and every path when no home directory is
/// known, stays as it is.
pub open spec fn expand_tilde_spec(p: Seq<char>, home: Option<Seq<char>>) -> Seq<char> {
    match home {
        Some(h) => {
            if p == seq!['~'] {
                h
            } else if p.len() >= 2 && p[0] == '~' && p[1] == '/' {
                h + seq!['/'] + p.skip(2)
            } else {
                p
            }
        },
        None => p,
    }
}

/// `path` with a leading `~` or `~/` replaced by the home directory.
pub fn expand_tilde(path: &str, home: &Option<String>) -> (r: String)
    ensures
        r@ == expand_tilde_spec(path@, home.deep_view()),
{
    match home {
        None => String::from_str(path),
        Some(h) => {
            let n = path.unicode_len();
            if n == 1 && path.get_char(0) == '~' {
                proof {
                    assert(path@ =~= seq!['~']);
                }
                h.clone()
            } else if n >= 2 && path.get_char(0) == '~' && path.get_char(1) == '/' {
                let mut r = h.clone();
                r.append("/");
                r.append(path.substring_char(2, n));
                proof {
                    reveal_strlit("/");
                    assert("/"@ =~= seq!['/']);
                    assert(r@ =~= h@ + seq!['/'] + path@.skip(2));
                }
                r
            } else {
                proof {
                    if n == 1 {
                        assert(path@[0] != '~');
                        assert(path@ != seq!['~']);
                    } else {
                        assert(path@.len() != 1);
                        assert(path@ != seq!['~']);
                    }
                }
                String::from_str(path)
            }
        },
    }
}

/// One file of a directory-mapping write: the target file (which may name
/// subdirectories) and the dotted path whose value it receives.
#[derive(Clone, Debug, PartialEq, Eq)]
pub struct FileMapping {
    pub filename: String,
    pub json_path: String,
}

impl View for FileMapping {
    type V = (Seq<char>, Seq<char>);

    open spec fn view(&self) -> (Seq<char>, Seq<char>) {
        (self.filename@, self.json_path@)
    }
}

impl DeepView for FileMapping {
    type V = (Seq<char>, Seq<char>);

    open spec fn deep_view(&self) -> (Seq<char>, Seq<char>) {
        self.view()
    }
}

/// Whether a structure string is the text of one valid JSON object and, if
/// so, which members that object has: a member's value is kept when it is a
/// JSON string and marked absent otherwise. A pure function of the text.
pub uninterp spec fn structure_object_of(s: Seq<char>) -> Option<
    Seq<(Seq<char>, Option<Seq<char>>)>,
>;

/// Relies on `serde_json::from_str` and `serde_json::Value`: whether `s`
/// parses as one JSON object, and that object's members, depend on `s`
/// alone, and serde_json hands the members out in its map's deterministic
/// (key-ordered) iteration order.
#[verifier::external_body]
fn parse_structure_json(s: &str) -> (r: Option<Vec<(String, Option<String>)>>)
    ensures
        match r {
            Some(entries) => structure_object_of(s@) == Some(entries.deep_view()),
            None => structure_object_of(s@) is None,
        },
{
    match serde_json::from_str::<serde_json::Value>(s) {
        Ok(serde_json::Value::Object(members)) => Some(
            members
                .into_iter()
                .map(|(key, value)| match value {
                    serde_json::Value::String(path) => (key, Some(path)),
                    _ => (key, None),
                })
                .collect(),
        ),
        _ => None,
    }
}

/// The mappings taken from a parsed JSON structure object: members whose
/// value is a string, in order; other members are passed over.
pub open spec fn json_entries_to_mappings(entries: Seq<(Seq<char>, Option<Seq<char>>)>) -> Seq<
    (Seq<char>, Seq<char>),
>
    decreases entries.len(),
{
    if entries.len() == 0 {
        Seq::empty()
    } else {
        let rest = json_entries_to_mappings(entries.drop_first());
        match entries[0].1 {
            Some(p) => seq![(entries[0].0, p)] + rest,
            None => rest,
        }
    }
}

/// The mapping one `filename:path` piece of the fallback form yields: the
/// parts before and after the first colon, both trimmed; a piece without a
/// colon yields none.
pub open spec fn pair_mapping(piece: Seq<char>) -> Option<(Seq<char>, Seq<char>)> {
    match find_char(piece, ':') {
        Some(i) => Some((trim_spec(piece.take(i)), trim_spec(piece.skip(i + 1)))),
        None => None,
    }
}

/// The mappings of the comma-separated fallback form, piece by piece.
pub open spec fn fallback_mappings_of(pieces: Seq<Seq<char>>) -> Seq<(Seq<char>, Seq<char>)>
    decreases pieces.len(),
{
    if pieces.len() == 0 {
        Seq::empty()
    } else {
        let rest = fallback_mappings_of(pieces.drop_first());
        match pair_mapping(pieces[0]) {
            Some(m) => seq![m] + rest,
            None => rest,
        }
    }
}

/// The mappings of a structure string read as `filename:path` pieces
/// separated by commas.
pub open spec fn fallback_mappings(s: Seq<char>) -> Seq<(Seq<char>, Seq<char>)> {
    fallback_mappings_of(split_on_char(s, ','))
}

/// The mappings a structure string denotes: those of the JSON-object form
/// when the string parses as one JSON object, else those of the
/// comma-separated fallback form.
pub open spec fn structure_mappings(s: Seq<char>) -> Seq<(Seq<char>, Seq<char>)> {
    match structure_object_of(s) {
        Some(entries) => json_entries_to_mappings(entries),
        None => fallback_mappings(s),
    }
}

/// The filename-to-path mappings of `structure`: the JSON-object form is
/// tried first and wins if the whole string is one valid JSON object;
/// otherwise the string is read as comma-separated `filename:path` pairs.
pub fn parse_structure_mappings(structure: &str) -> (r: Vec<FileMapping>)
    ensures
        r.deep_view() == structure_mappings(structure@),
{
    let mut mappings: Vec<FileMapping> = Vec::new();
    match parse_structure_json(structure) {
        Some(entries) => {
            let ghost eseq = entries.deep_view();
            proof {
                assert(eseq.skip(0) =~= eseq);
                assert(mappings.deep_view() =~= Seq::<(Seq<char>, Seq<char>)>::empty());
            }
            let n = entries.len();
            let mut i: usize = 0;
            while i < n
                invariant
                    0 <= i <= n,
                    n == entries@.len(),
                    eseq == entries.deep_view(),
                    structure_object_of(structure@) == Some(eseq),
                    json_entries_to_mappings(eseq) =~= mappings.deep_view()
                        + json_entries_to_mappings(eseq.skip(i as int)),
                decreases n - i,
            {
                proof {
                    assert(eseq[i as int] == entries@[i as int].deep_view());
                    assert(eseq.skip(i as int)[0] == eseq[i as int]);
                    assert(eseq.skip(i as int).drop_first() =~= eseq.skip(i as int + 1));
                }
                match &entries[i].1 {
                    Some(p) => {
                        mappings.push(
                            FileMapping {
                                filename: entries[i].0.clone(),
                                json_path: p.clone(),
                            },
                        );
                        proof {
                            assert(mappings.deep_view() =~= mappings.deep_view().drop_last()
                                + seq![(entries@[i as int].0@, entries@[i as int].1->Some_0@)]);
                        }
                    },
                    None => {},
                }
                i = i + 1;
            }
            proof {
                assert(eseq.skip(n as int)
                    =~= Seq::<(Seq<char>, Option<Seq<char>>)>::empty());
            }
        },
        None => {
            let pieces = split_string(structure, ',');
            let ghost pseq = split_on_char(structure@, ',');
            proof {
                assert(pseq.skip(0) =~= pseq);
                assert(mappings.deep_view() =~= Seq::<(Seq<char>, Seq<char>)>::empty());
            }
            let n = pieces.len();
            let mut i: usize = 0;
            while i < n
                invariant
                    0 <= i <= n,
                    n == pieces@.len(),
                    pieces.deep_view() == pseq,
                    structure_object_of(structure@) is None,
                    fallback_mappings(structure@) =~= mappings.deep_view()
                        + fallback_mappings_of(pseq.skip(i as int)),
                decreases n - i,
            {
                proof {
                    assert(pieces.deep_view()[i as int] == pieces@[i as int]@);
                    assert(pseq.skip(i as int)[0] == pseq[i as int]);
                    assert(pseq.skip(i as int).drop_first() =~= pseq.skip(i as int + 1));
                }
                let piece = &pieces[i];
                match find_char_exec(piece.as_str(), ':') {
                    Some(k) => {
                        let m = piece.unicode_len();
                        proof {
                            crate::text::lemma_find_char(piece@, ':');
                        }
                        let filename = trim(piece.as_str().substring_char(0, k));
                        let json_path = trim(piece.as_str().substring_char(k + 1, m));
                        proof {
                            assert(piece@.subrange(0, k as int) =~= piece@.take(k as int));
                            assert(piece@.subrange(k as int + 1, m as int)
                                =~= piece@.skip(k as int + 1));
                        }
                        mappings.push(FileMapping { filename, json_path });
                        proof {
                            assert(mappings.deep_view() =~= mappings.deep_view().drop_last()
                                + seq![pair_mapping(pseq[i as int])->Some_0]);
                        }
                    },
                    None => {},
                }
                i = i + 1;
            }
            proof {
                assert(pseq.skip(n as int) =~= Seq::<Seq<char>>::empty());
            }
        },
    }
    mappings
}

/// One planned file write: the full path and the exact content.
#[derive(Clone, Debug, PartialEq, Eq)]
pub struct FileWrite {
    pub path: String,
    pub content: String,
}

impl View for FileWrite {
    type V = (Seq<char>, Seq<char>);

    open spec fn view(&self) -> (Seq<char>, Seq<char>) {
        (self.path@, self.content@)
    }
}

impl DeepView for FileWrite {
    type V = (Seq<char>, Seq<char>);

    open spec fn deep_view(&self) -> (Seq<char>, Seq<char>) {
        self.view()
    }
}

/// The first problem that stops a write plan.
pub enum PlanProblem {
    /// A mapped filename could escape the target directory.
    UnsafeName(Seq<char>),
    /// A dotted path named by the write is absent from the body.
    MissingPath(Seq<char>),
}

/// Why a write could not be planned.
#[derive(Clone, Debug, PartialEq, Eq)]
pub enum WriteError {
    /// The named file of a mapping holds a `..` segment and could escape
    /// the target directory.
    UnsafeFilename { filename: String },
    /// The named dotted path is absent from the body.
    PathNotFound { json_path: String },
}

impl View for WriteError {
    type V = PlanProblem;

    open spec fn view(&self) -> PlanProblem {
        match self {
            WriteError::UnsafeFilename { filename } => PlanProblem::UnsafeName(filename@),
            WriteError::PathNotFound { json_path } => PlanProblem::MissingPath(json_path@),
        }
    }
}

/// Whether a mapped filename could escape the target directory: true when
/// any of its `/`-separated segments is `..`.
pub open spec fn filename_escapes_root(name: Seq<char>) -> bool {
    exists|i: int|
        0 <= i < split_on_char(name, '/').len() && split_on_char(name, '/')[i] == seq!['.', '.']
}

/// Whether `name` holds a `..` segment, computed.
pub fn filename_escapes_root_exec(name: &str) -> (r: bool)
    ensures
        r == filename_escapes_root(name@),
{
    let segments = split_string(name, '/');
    let ghost sseq = split_on_char(name@, '/');
    let n = segments.len();
    let mut i: usize = 0;
    proof {
        reveal_strlit("..");
        assert(".."@ =~= seq!['.', '.']);
    }
    while i < n
        invariant
            0 <= i <= n,
            n == sseq.len(),
            sseq == split_on_char(name@, '/'),
            segments.deep_view() == sseq,
            forall|j: int| 0 <= j < i ==> sseq[j] != seq!['.', '.'],
        decreases n - i,
    {
        proof {
            assert(segments.deep_view()[i as int] == segments@[i as int]@);
            reveal_strlit("..");
            assert(".."@ =~= seq!['.', '.']);
        }
        if str_eq(segments[i].as_str(), "..") {
            proof {
                assert(sseq[i as int] == seq!['.', '.']);
            }
            return true;
        }
        proof {
            assert(sseq[i as int] != seq!['.', '.']);
        }
        i = i + 1;
    }
    false
}

/// The writes of a directory-mapping plan, mapping by mapping: each target
/// is the root joined with the mapped filename, each content the string
/// form of the value its dotted path resolves to. The first unsafe filename
/// or unresolved path stops the whole plan.
pub open spec fn multi_plan(
    body: JsonSpec,
    mappings: Seq<(Seq<char>, Seq<char>)>,
    root: Seq<char>,
) -> Result<Seq<(Seq<char>, Seq<char>)>, PlanProblem>
    decreases mappings.len(),
{
    if mappings.len() == 0 {
        Ok(Seq::empty())
    } else if filename_escapes_root(mappings[0].0) {
        Err(PlanProblem::UnsafeName(mappings[0].0))
    } else {
        match resolve_spec(body, mappings[0].1) {
            Some(v) => match multi_plan(body, mappings.drop_first(), root) {
                Ok(rest) => Ok(
                    seq![(root + seq!['/'] + mappings[0].0, string_form(v))] + rest,
                ),
                Err(e) => Err(e),
            },
            None => Err(PlanProblem::MissingPath(mappings[0].1)),
        }
    }
}

/// The write plan for one persistence request. No destination, or an empty
/// one, plans nothing and succeeds. Otherwise the destination has `~`
/// expanded; a directory destination fans the body out by the structure's
/// mappings, and a file destination receives the string form of the one
/// value the structure names as a dotted path.
pub open spec fn spec_plan_write(
    body: JsonSpec,
    destination: Option<Seq<char>>,
    structure: Seq<char>,
    dest_is_dir: bool,
    home: Option<Seq<char>>,
) -> Result<Seq<(Seq<char>, Seq<char>)>, PlanProblem> {
    match destination {
        None => Ok(Seq::empty()),
        Some(d) => {
            if d.len() == 0 {
                Ok(Seq::empty())
            } else {
                let root = expand_tilde_spec(d, home);
                if dest_is_dir {
                    multi_plan(body, structure_mappings(structure), root)
                } else {
                    match resolve_spec(body, structure) {
                        Some(v) => Ok(seq![(root, string_form(v))]),
                        None => Err(PlanProblem::MissingPath(structure)),
                    }
                }
            }
        },
    }
}

/// The write plan for persisting fields of `body`, as `spec_plan_write`
/// states it. `dest_is_dir` says whether the expanded destination names an
/// existing directory (a fact only the caller can observe); it selects the
/// directory-mapping mode.
pub fn plan_write(
    body: &JsonValue,
    destination: &Option<String>,
    structure: &str,
    dest_is_dir: bool,
    home: &Option<String>,
) -> (r: Result<Vec<FileWrite>, WriteError>)
    ensures
        match r {
            Ok(writes) => spec_plan_write(
                body@,
                destination.deep_view(),
                structure@,
                dest_is_dir,
                home.deep_view(),
            ) == Ok::<Seq<(Seq<char>, Seq<char>)>, PlanProblem>(writes.deep_view()),
            Err(e) => spec_plan_write(
                body@,
                destination.deep_view(),
                structure@,
                dest_is_dir,
                home.deep_view(),
            ) == Err::<Seq<(Seq<char>, Seq<char>)>, PlanProblem>(e@),
        },
{
    let dest = match destination {
        None => {
            let empty: Vec<FileWrite> = Vec::new();
            proof {
                assert(empty.deep_view() =~= Seq::<(Seq<char>, Seq<char>)>::empty());
            }
            return Ok(empty);
        },
        Some(d) => d,
    };
    if dest.as_str().unicode_len() == 0 {
        let empty: Vec<FileWrite> = Vec::new();
        proof {
            assert(empty.deep_view() =~= Seq::<(Seq<char>, Seq<char>)>::empty());
        }
        return Ok(empty);
    }
    let root = expand_tilde(dest.as_str(), home);
    if dest_is_dir {
        let mappings = parse_structure_mappings(structure);
        let ghost mseq = structure_mappings(structure@);
        let mut writes: Vec<FileWrite> = Vec::new();
        proof {
            assert(mseq.skip(0) =~= mseq);
            assert(writes.deep_view() =~= Seq::<(Seq<char>, Seq<char>)>::empty());
        }
        let n = mappings.len();
        let mut i: usize = 0;
        while i < n
            invariant
                0 <= i <= n,
                n == mappings@.len(),
                mappings.deep_view() == mseq,
                root@ == expand_tilde_spec(dest@, home.deep_view()),
                spec_plan_write(
                    body@,
                    destination.deep_view(),
                    structure@,
                    dest_is_dir,
                    home.deep_view(),
                ) == multi_plan(body@, mseq, root@),
                multi_plan(body@, mseq, root@) == match multi_plan(
                    body@,
                    mseq.skip(i as int),
                    root@,
                ) {
                    Ok(rest) => Ok::<Seq<(Seq<char>, Seq<char>)>, PlanProblem>(
                        writes.deep_view() + rest,
                    ),
                    Err(e) => Err::<Seq<(Seq<char>, Seq<char>)>, PlanProblem>(e),
                },
            decreases n - i,
        {
            proof {
                assert(mappings.deep_view()[i as int] == mappings@[i as int]@);
                assert(mseq.skip(i as int)[0] == mseq[i as int]);
                assert(mseq.skip(i as int).drop_first() =~= mseq.skip(i as int + 1));
            }
            let mapping = &mappings[i];
            if filename_escapes_root_exec(mapping.filename.as_str()) {
                proof {
                    assert(multi_plan(body@, mseq.skip(i as int), root@) == Err::<
                        Seq<(Seq<char>, Seq<char>)>,
                        PlanProblem,
                    >(PlanProblem::UnsafeName(mseq[i as int].0)));
                }
                return Err(WriteError::UnsafeFilename { filename: mapping.filename.clone() });
            }
            match resolve(body, mapping.json_path.as_str()) {
                Some(value) => {
                    let mut target = root.clone();
                    target.append("/");
                    target.append(mapping.filename.as_str());
                    proof {
                        reveal_strlit("/");
                        assert("/"@ =~= seq!['/']);
                        assert(target@ =~= root@ + seq!['/'] + mapping.filename@);
                    }
                    let ghost before = writes.deep_view();
                    let ghost w = (
                        root@ + seq!['/'] + mseq[i as int].0,
                        string_form(resolve_spec(body@, mseq[i as int].1)->Some_0),
                    );
                    writes.push(FileWrite { path: target, content: string_form_exec(value) });
                    proof {
                        assert(writes.deep_view() =~= before + seq![w]);
                        match multi_plan(body@, mseq.skip(i as int + 1), root@) {
                            Ok(rest) => {
                                assert(before + (seq![w] + rest) =~= (before + seq![w]) + rest);
                            },
                            Err(_) => {},
                        }
                    }
                },
                None => {
                    proof {
                        assert(multi_plan(body@, mseq.skip(i as int), root@) == Err::<
                            Seq<(Seq<char>, Seq<char>)>,
                            PlanProblem,
                        >(PlanProblem::MissingPath(mseq[i as int].1)));
                    }
                    return Err(WriteError::PathNotFound { json_path: mapping.json_path.clone() });
                },
            }
            i = i + 1;
        }
        proof {
            assert(mseq.skip(n as int) =~= Seq::<(Seq<char>, Seq<char>)>::empty());
            assert(writes.deep_view() + Seq::<(Seq<char>, Seq<char>)>::empty()
                =~= writes.deep_view());
        }
        Ok(writes)
    } else {
        match resolve(body, structure) {
            Some(value) => {
                let mut writes: Vec<FileWrite> = Vec::new();
                writes.push(FileWrite { path: root, content: string_form_exec(value) });
                proof {
                    assert(writes.deep_view() =~= seq![
                        (
                            expand_tilde_spec(dest@, home.deep_view()),
                            string_form(resolve_spec(body@, structure@)->Some_0),
                        ),
                    ]);
                }
                Ok(writes)
            },
            None => Err(WriteError::PathNotFound { json_path: String::from_str(structure) }),
        }
    }
}

/// The file names and dotted paths of the login fields persisted by
/// convention after a login call.
pub open spec fn login_variable_pairs() -> Seq<(Seq<char>, Seq<char>)> {
    seq![
        ("access_token.txt"@, "token.access_token"@),
        ("refresh_token.txt"@, "token.refresh_token"@),
        ("email.txt"@, "user.email"@),
        ("user_id.txt"@, "user.id"@),
    ]
}

/// The writes that persist the login fields under `base`: one single-file
/// write per pair, in order, or the first pair whose path is absent.
pub open spec fn login_plan(
    body: JsonSpec,
    base: Seq<char>,
    home: Option<Seq<char>>,
    pairs: Seq<(Seq<char>, Seq<char>)>,
) -> Result<Seq<(Seq<char>, Seq<char>)>, PlanProblem>
    decreases pairs.len(),
{
    if pairs.len() == 0 {
        Ok(Seq::empty())
    } else {
        match spec_plan_write(body, Some(base + seq!['/'] + pairs[0].0), pairs[0].1, false, home) {
            Ok(w) => match login_plan(body, base, home, pairs.drop_first()) {
                Ok(rest) => Ok(w + rest),
                Err(e) => Err(e),
            },
            Err(e) => Err(e),
        }
    }
}

/// The plan that persists the conventional login fields (tokens, email,
/// user id) of `body` to their files under `base_dir`.
pub fn plan_login_variables(body: &JsonValue, base_dir: &str, home: &Option<String>) -> (r: Result<
    Vec<FileWrite>,
    WriteError,
>)
    ensures
        match r {
            Ok(writes) => login_plan(body@, base_dir@, home.deep_view(), login_variable_pairs())
                == Ok::<Seq<(Seq<char>, Seq<char>)>, PlanProblem>(writes.deep_view()),
            Err(e) => login_plan(body@, base_dir@, home.deep_view(), login_variable_pairs())
                == Err::<Seq<(Seq<char>, Seq<char>)>, PlanProblem>(e@),
        },
{
    let mut names: Vec<(&str, &str)> = Vec::new();
    names.push(("access_token.txt", "token.access_token"));
    names.push(("refresh_token.txt", "token.refresh_token"));
    names.push(("email.txt", "user.email"));
    names.push(("user_id.txt", "user.id"));
    let ghost pairs = login_variable_pairs();
    proof {
        assert(names.deep_view() =~= pairs);
        assert(pairs.skip(0) =~= pairs);
    }
    let mut writes: Vec<FileWrite> = Vec::new();
    proof {
        assert(writes.deep_view() =~= Seq::<(Seq<char>, Seq<char>)>::empty());
    }
    let n = names.len();
    let mut i: usize = 0;
    while i < n
        invariant
            0 <= i <= n,
            n == names@.len(),
            names.deep_view() == pairs,
            pairs == login_variable_pairs(),
            login_plan(body@, base_dir@, home.deep_view(), pairs) == match login_plan(
                body@,
                base_dir@,
                home.deep_view(),
                pairs.skip(i as int),
            ) {
                Ok(rest) => Ok::<Seq<(Seq<char>, Seq<char>)>, PlanProblem>(
                    writes.deep_view() + rest,
                ),
                Err(e) => Err::<Seq<(Seq<char>, Seq<char>)>, PlanProblem>(e),
            },
        decreases n - i,
    {
        proof {
            assert(names.deep_view()[i as int] == names@[i as int].deep_view());
            assert(pairs.skip(i as int)[0] == pairs[i as int]);
            assert(pairs.skip(i as int).drop_first() =~= pairs.skip(i as int + 1));
        }
        let mut dest = String::from_str(base_dir);
        dest.append("/");
        dest.append(names[i].0);
        proof {
            reveal_strlit("/");
            assert("/"@ =~= seq!['/']);
            assert(dest@ =~= base_dir@ + seq!['/'] + pairs[i as int].0);
        }
        let ghost spec_dest: Option<Seq<char>> = Some(
            base_dir@ + seq!['/'] + pairs[i as int].0,
        );
        match plan_write(body, &Some(dest), names[i].1, false, home) {
            Ok(mut planned) => {
                let ghost before = writes.deep_view();
                let ghost added = planned.deep_view();
                writes.append(&mut planned);
                proof {
                    assert(writes.deep_view() =~= before + added);
                    assert(spec_plan_write(
                        body@,
                        spec_dest,
                        pairs[i as int].1,
                        false,
                        home.deep_view(),
                    ) == Ok::<Seq<(Seq<char>, Seq<char>)>, PlanProblem>(added));
                    match login_plan(body@, base_dir@, home.deep_view(), pairs.skip(i as int + 1)) {
                        Ok(rest) => {
                            assert(before + (added + rest) =~= (before + added) + rest);
                        },
                        Err(_) => {},
                    }
                }
            },
            Err(e) => {
                proof {
                    assert(spec_plan_write(
                        body@,
                        spec_dest,
                        pairs[i as int].1,
                        false,
                        home.deep_view(),
                    ) == Err::<Seq<(Seq<char>, Seq<char>)>, PlanProblem>(e@));
                    assert(login_plan(body@, base_dir@, home.deep_view(), pairs.skip(i as int))
                        == Err::<Seq<(Seq<char>, Seq<char>)>, PlanProblem>(e@));
                }
                return Err(e);
            },
        }
        i = i + 1;
    }
    proof {
        assert(pairs.skip(n as int) =~= Seq::<(Seq<char>, Seq<char>)>::empty());
        assert(writes.deep_view() + Seq::<(Seq<char>, Seq<char>)>::empty()
            =~= writes.deep_view());
    }
    Ok(writes)
}

/// The file system after performing `writes` in order: each write creates
/// or truncates its file and leaves exactly its content.
pub open spec fn apply_writes(
    fs: Map<Seq<char>, Seq<char>>,
    writes: Seq<(Seq<char>, Seq<char>)>,
) -> Map<Seq<char>, Seq<char>>
    decreases writes.len(),
{
    if writes.len() == 0 {
        fs
    } else {
        apply_writes(fs.insert(writes[0].0, writes[0].1), writes.drop_first())
    }
}

/// Reading a file of the modelled file system: its exact content, or
/// nothing when no such file exists.
pub open spec fn read_file(fs: Map<Seq<char>, Seq<char>>, path: Seq<char>) -> Option<Seq<char>> {
    if fs.dom().contains(path) {
        Some(fs[path])
    } else {
        None
    }
}

/// The content the last write to `path` among `writes` leaves, if any
/// write touches it.
pub open spec fn last_write(writes: Seq<(Seq<char>, Seq<char>)>, path: Seq<char>) -> Option<
    Seq<char>,
>
    decreases writes.len(),
{
    if writes.len() == 0 {
        None
    } else {
        match last_write(writes.drop_first(), path) {
            Some(v) => Some(v),
            None => if writes[0].0 == path {
                Some(writes[0].1)
            } else {
                None
            },
        }
    }
}

/// After performing a plan, each file holds the last content written to it,
/// and untouched files are unchanged.
pub proof fn lemma_apply_writes_reads(
    fs: Map<Seq<char>, Seq<char>>,
    writes: Seq<(Seq<char>, Seq<char>)>,
    path: Seq<char>,
)
    ensures
        read_file(apply_writes(fs, writes), path) == match last_write(writes, path) {
            Some(v) => Some(v),
            None => read_file(fs, path),
        },
    decreases writes.len(),
{
    if writes.len() > 0 {
        lemma_apply_writes_reads(fs.insert(writes[0].0, writes[0].1), writes.drop_first(), path);
    }
}

/// Law: a single-file write followed by a read of the same destination
/// yields exactly the string form of the value the structure path resolved
/// to — no whitespace added or stripped — whatever the file system held
/// before.
pub proof fn lemma_single_write_read_round_trip(
    fs: Map<Seq<char>, Seq<char>>,
    body: JsonSpec,
    dest: Seq<char>,
    structure: Seq<char>,
    home: Option<Seq<char>>,
    v: JsonSpec,
)
    requires
        dest.len() > 0,
        resolve_spec(body, structure) == Some(v),
    ensures
        spec_plan_write(body, Some(dest), structure, false, home)
            == Ok::<Seq<(Seq<char>, Seq<char>)>, PlanProblem>(
            seq![(expand_tilde_spec(dest, home), string_form(v))],
        ),
        read_file(
            apply_writes(fs, seq![(expand_tilde_spec(dest, home), string_form(v))]),
            expand_tilde_spec(dest, home),
        ) == Some(string_form(v)),
{
    let target = expand_tilde_spec(dest, home);
    let ws = seq![(target, string_form(v))];
    lemma_apply_writes_reads(fs, ws, target);
    let rest = ws.drop_first();
    assert(rest =~= Seq::<(Seq<char>, Seq<char>)>::empty());
    assert(rest.len() == 0);
    assert(last_write(rest, target) is None);
    assert(ws[0].0 == target);
    assert(last_write(ws, target) == Some(string_form(v)));
}

/// Law: performing the same write plan twice leaves every file exactly as
/// one performance leaves it — writes overwrite, they never append.
pub proof fn lemma_write_idempotent(
    fs: Map<Seq<char>, Seq<char>>,
    writes: Seq<(Seq<char>, Seq<char>)>,
)
    ensures
        apply_writes(apply_writes(fs, writes), writes) == apply_writes(fs, writes),
{
    let once = apply_writes(fs, writes);
    let twice = apply_writes(once, writes);
    assert forall|p: Seq<char>| #[trigger]
        read_file(twice, p) == read_file(once, p) by {
        lemma_apply_writes_reads(fs, writes, p);
        lemma_apply_writes_reads(once, writes, p);
    }
    assert forall|p: Seq<char>| twice.dom().contains(p) <==> once.dom().contains(p) by {
        assert(read_file(twice, p) == read_file(once, p));
    }
    assert forall|p: Seq<char>| once.dom().contains(p) implies twice[p] == once[p] by {
        assert(read_file(twice, p) == read_file(once, p));
    }
    assert(twice =~= once);
}

} // verus!
