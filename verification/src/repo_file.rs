//! Repo files: small TOML-like rule files split into sections and applied
//! to a `RepoFile` value.  The file is split by hand into segments at
//! double break lines, so that a later bare array does not get swallowed
//! by a preceding table; each segment is then parsed as its own TOML
//! document and applied in order.

use vstd::prelude::*;
use vstd::string::StrSliceExecFns;
use vstd::string::StringExecFns;

use crate::commands::str_eq;

verus! {

/// The parsed rule file: which remote to pull, and the path rules.
#[derive(Debug, PartialEq)]
pub struct RepoFile {
    pub repo_name: Option<String>,
    pub remote_repo: Option<String>,
    pub remote_branch: Option<String>,
    pub include_as: Option<Vec<String>>,
    pub include_paths: Option<Vec<String>>,
    pub exclude: Option<Vec<String>>,
}

/// Spec-level image of a `RepoFile`.
#[verifier::ext_equal]
pub struct RepoFileModel {
    pub repo_name: Option<String>,
    pub remote_repo: Option<String>,
    pub remote_branch: Option<String>,
    pub include_as: Option<Seq<String>>,
    pub include_paths: Option<Seq<String>>,
    pub exclude: Option<Seq<String>>,
}

pub open spec fn opt_strs_view(o: Option<Vec<String>>) -> Option<Seq<String>> {
    match o {
        Some(v) => Some(v@),
        None => None,
    }
}

pub open spec fn repo_file_view(rf: RepoFile) -> RepoFileModel {
    RepoFileModel {
        repo_name: rf.repo_name,
        remote_repo: rf.remote_repo,
        remote_branch: rf.remote_branch,
        include_as: opt_strs_view(rf.include_as),
        include_paths: opt_strs_view(rf.include_paths),
        exclude: opt_strs_view(rf.exclude),
    }
}

pub open spec fn empty_repo_file_model() -> RepoFileModel {
    RepoFileModel {
        repo_name: None,
        remote_repo: None,
        remote_branch: None,
        include_as: None,
        include_paths: None,
        exclude: None,
    }
}

impl Default for RepoFile {
    fn default() -> (r: Self)
        ensures
            repo_file_view(r) == empty_repo_file_model(),
    {
        let r = RepoFile {
            repo_name: None,
            remote_repo: None,
            remote_branch: None,
            include_as: None,
            include_paths: None,
            exclude: None,
        };
        proof {
            assert(repo_file_view(r) =~~= empty_repo_file_model());
        }
        r
    }
}

impl RepoFile {
    pub fn new() -> (r: RepoFile)
        ensures
            repo_file_view(r) == empty_repo_file_model(),
    {
        RepoFile::default()
    }
}

/// An owned TOML value, holding exactly what the rule-file logic reads:
/// strings, arrays, tables, and an opaque rest.
#[derive(Debug, PartialEq)]
pub enum TomlValue {
    Str(String),
    Arr(Vec<TomlValue>),
    Table(Vec<(String, TomlValue)>),
    Other,
}

/// A break line holds nothing but spaces.
pub open spec fn is_break_spec(l: Seq<char>) -> bool {
    forall|i: int| 0 <= i < l.len() ==> l[i] == ' '
}

/// True when the line holds only spaces.
pub fn line_is_break(line: &String) -> (r: bool)
    ensures
        r == is_break_spec(line@),
{
    let n = line.as_str().unicode_len();
    let mut i: usize = 0;
    while i < n
        invariant
            0 <= i <= n,
            n == line@.len(),
            forall|j: int| 0 <= j < i ==> line@[j] == ' ',
        decreases n - i,
    {
        if line.as_str().get_char(i) != ' ' {
            return false;
        }
        i = i + 1;
    }
    true
}

/* Trusted access to the toml crate. */

#[verifier::external_type_specification]
#[verifier::external_body]
pub struct ExTomlValue(toml::Value);

/// What the toml parser makes of a document: a function of the text
/// alone, or nothing when the text is not well-formed TOML.
pub uninterp spec fn toml_parse_of(s: Seq<char>) -> Option<TomlValue>;

/// Relies on toml's `Value` variant accessors and `Map::iter`: converts
/// the parsed tree into the library's own value type, one arm per
/// variant, moving the fields.
#[verifier::external_body]
fn toml_value_to_tree(v: &toml::Value) -> (r: TomlValue) {
    match v {
        toml::Value::String(s) => TomlValue::Str(s.clone()),
        toml::Value::Array(a) => TomlValue::Arr(a.iter().map(toml_value_to_tree).collect()),
        toml::Value::Table(t) => TomlValue::Table(
            t.iter().map(|p| (p.0.clone(), toml_value_to_tree(p.1))).collect(),
        ),
        _ => TomlValue::Other,
    }
}

/// Relies on toml's `FromStr` for `Value`: parse one segment as a TOML
/// document, a deterministic function of the text.
#[verifier::external_body]
fn parse_toml_segment(s: &str) -> (r: Option<TomlValue>)
    ensures
        r == toml_parse_of(s@),
{
    match s.parse::<toml::Value>() {
        Ok(v) => Some(toml_value_to_tree(&v)),
        Err(_) => None,
    }
}

/* The sections, with their exact effect on the repo file. */

pub open spec fn str_opt_spec(v: TomlValue) -> Option<String> {
    match v {
        TomlValue::Str(s) => Some(s),
        _ => None,
    }
}

/// The string under the value, when it is a string.
pub fn toml_value_to_string_opt(toml_value: &TomlValue) -> (r: Option<String>)
    ensures
        r == str_opt_spec(*toml_value),
{
    match toml_value {
        TomlValue::Str(s) => Some(s.clone()),
        _ => None,
    }
}

/// The value a key holds after the first `i` entries of a table were
/// applied to `cur`: the last matching entry wins, read as a string.
pub open spec fn key_str_upto(
    cur: Option<String>,
    entries: Seq<(String, TomlValue)>,
    i: int,
    key: Seq<char>,
) -> Option<String>
    decreases i,
{
    if i <= 0 {
        cur
    } else {
        let prev = key_str_upto(cur, entries, i - 1, key);
        if entries[i - 1].0@ == key {
            str_opt_spec(entries[i - 1].1)
        } else {
            prev
        }
    }
}

/// The effect of a `[repo]` section on the repo file.
pub open spec fn apply_repo_section(m: RepoFileModel, v: TomlValue) -> RepoFileModel {
    match v {
        TomlValue::Table(t) => RepoFileModel {
            remote_repo: key_str_upto(m.remote_repo, t@, t@.len() as int, "remote"@),
            repo_name: key_str_upto(m.repo_name, t@, t@.len() as int, "name"@),
            remote_branch: key_str_upto(m.remote_branch, t@, t@.len() as int, "branch"@),
            ..m
        },
        _ => m,
    }
}

/// Apply a `[repo]` section: `remote`, `name` and `branch` keys set their
/// fields, later entries over earlier ones; anything else is ignored.
pub fn parse_repo_section(toml_value: &TomlValue, repofile: &mut RepoFile)
    ensures
        repo_file_view(*final(repofile)) == apply_repo_section(
            repo_file_view(*old(repofile)),
            *toml_value,
        ),
{
    let ghost m0 = repo_file_view(*repofile);
    match toml_value {
        TomlValue::Table(t) => {
            let n = t.len();
            let mut i: usize = 0;
            while i < n
                invariant
                    0 <= i <= n,
                    n == t@.len(),
                    repo_file_view(*repofile) =~~= (RepoFileModel {
                        remote_repo: key_str_upto(m0.remote_repo, t@, i as int, "remote"@),
                        repo_name: key_str_upto(m0.repo_name, t@, i as int, "name"@),
                        remote_branch: key_str_upto(m0.remote_branch, t@, i as int, "branch"@),
                        ..m0
                    }),
                decreases n - i,
            {
                let k = &t[i].0;
                let v = &t[i].1;
                if str_eq(k.as_str(), "remote") {
                    repofile.remote_repo = toml_value_to_string_opt(v);
                } else if str_eq(k.as_str(), "name") {
                    repofile.repo_name = toml_value_to_string_opt(v);
                } else if str_eq(k.as_str(), "branch") {
                    repofile.remote_branch = toml_value_to_string_opt(v);
                }
                proof {
                    reveal_strlit("remote");
                    reveal_strlit("name");
                    reveal_strlit("branch");
                    assert("remote"@.len() == 6 && "name"@.len() == 4 && "branch"@.len() == 6);
                    assert("remote"@[0] == 'r' && "name"@[0] == 'n' && "branch"@[0] == 'b');
                }
                i = i + 1;
            }
            proof {
                assert(repo_file_view(*repofile) =~~= apply_repo_section(m0, *toml_value));
            }
        },
        _ => {},
    }
}

/// The `key, value` pairs a table contributes, in table order, keeping
/// only string values.
pub open spec fn pairs_upto(entries: Seq<(String, TomlValue)>, i: int) -> Seq<String>
    decreases i,
{
    if i <= 0 {
        seq![]
    } else {
        pairs_upto(entries, i - 1) + (match entries[i - 1].1 {
            TomlValue::Str(s) => seq![entries[i - 1].0, s],
            _ => seq![],
        })
    }
}

/// The effect of an `[include_as]` section.
pub open spec fn apply_include_as_section(m: RepoFileModel, v: TomlValue) -> RepoFileModel {
    match v {
        TomlValue::Table(t) => RepoFileModel {
            include_as: Some(pairs_upto(t@, t@.len() as int)),
            ..m
        },
        _ => m,
    }
}

/// Apply an `[include_as]` section: each entry with a string value adds
/// its key and value, in order; the field is set even when empty.
pub fn parse_include_as_section(toml_value: &TomlValue, repofile: &mut RepoFile)
    ensures
        repo_file_view(*final(repofile)) == apply_include_as_section(
            repo_file_view(*old(repofile)),
            *toml_value,
        ),
{
    let ghost m0 = repo_file_view(*repofile);
    match toml_value {
        TomlValue::Table(t) => {
            let mut include_as: Vec<String> = Vec::new();
            let n = t.len();
            let mut i: usize = 0;
            while i < n
                invariant
                    0 <= i <= n,
                    n == t@.len(),
                    include_as@ =~= pairs_upto(t@, i as int),
                decreases n - i,
            {
                match &t[i].1 {
                    TomlValue::Str(s) => {
                        include_as.push(t[i].0.clone());
                        include_as.push(s.clone());
                    },
                    _ => {},
                }
                proof {
                    assert(include_as@ =~= pairs_upto(t@, i as int + 1));
                }
                i = i + 1;
            }
            repofile.include_as = Some(include_as);
            proof {
                assert(repo_file_view(*repofile) =~~= apply_include_as_section(m0, *toml_value));
            }
        },
        _ => {},
    }
}

/// The strings the first `i` array elements contribute.
pub open spec fn strings_upto(elems: Seq<TomlValue>, i: int) -> Seq<String>
    decreases i,
{
    if i <= 0 {
        seq![]
    } else {
        strings_upto(elems, i - 1) + (match elems[i - 1] {
            TomlValue::Str(s) => seq![s],
            _ => seq![],
        })
    }
}

/// The strings under a value: the string elements of an array, a lone
/// string itself, nothing otherwise.
pub open spec fn toml_strings(v: TomlValue) -> Seq<String> {
    match v {
        TomlValue::Str(s) => seq![s],
        TomlValue::Arr(a) => strings_upto(a@, a@.len() as int),
        _ => seq![],
    }
}

/// Collect the strings under a value.
pub fn toml_value_to_vec(toml_value: &TomlValue) -> (r: Vec<String>)
    ensures
        r@ == toml_strings(*toml_value),
{
    let mut toml_vec: Vec<String> = Vec::new();
    match toml_value {
        TomlValue::Arr(a) => {
            let n = a.len();
            let mut i: usize = 0;
            while i < n
                invariant
                    0 <= i <= n,
                    n == a@.len(),
                    toml_vec@ =~= strings_upto(a@, i as int),
                decreases n - i,
            {
                match &a[i] {
                    TomlValue::Str(s) => {
                        toml_vec.push(s.clone());
                    },
                    _ => {},
                }
                proof {
                    assert(toml_vec@ =~= strings_upto(a@, i as int + 1));
                }
                i = i + 1;
            }
            proof {
                assert(toml_vec@ =~= toml_strings(*toml_value));
            }
        },
        TomlValue::Str(s) => {
            toml_vec.push(s.clone());
            proof {
                assert(toml_vec@ =~= toml_strings(*toml_value));
            }
        },
        _ => {
            proof {
                assert(toml_vec@ =~= toml_strings(*toml_value));
            }
        },
    }
    toml_vec
}

/// The effect of an `include` value.
pub open spec fn apply_include_section(m: RepoFileModel, v: TomlValue) -> RepoFileModel {
    if toml_strings(v).len() > 0 {
        RepoFileModel { include_paths: Some(toml_strings(v)), ..m }
    } else {
        m
    }
}

/// Apply an `include` value: set the field when any strings were found.
pub fn parse_include_section(toml_value: &TomlValue, repofile: &mut RepoFile)
    ensures
        repo_file_view(*final(repofile)) == apply_include_section(
            repo_file_view(*old(repofile)),
            *toml_value,
        ),
{
    let ghost m0 = repo_file_view(*repofile);
    let toml_vec = toml_value_to_vec(toml_value);
    if toml_vec.len() > 0 {
        repofile.include_paths = Some(toml_vec);
    }
    proof {
        assert(repo_file_view(*repofile) =~~= apply_include_section(m0, *toml_value));
    }
}

/// The effect of an `exclude` value.
pub open spec fn apply_exclude_section(m: RepoFileModel, v: TomlValue) -> RepoFileModel {
    if toml_strings(v).len() > 0 {
        RepoFileModel { exclude: Some(toml_strings(v)), ..m }
    } else {
        m
    }
}

/// Apply an `exclude` value: set the field when any strings were found.
pub fn parse_exclude_section(toml_value: &TomlValue, repofile: &mut RepoFile)
    ensures
        repo_file_view(*final(repofile)) == apply_exclude_section(
            repo_file_view(*old(repofile)),
            *toml_value,
        ),
{
    let ghost m0 = repo_file_view(*repofile);
    let toml_vec = toml_value_to_vec(toml_value);
    if toml_vec.len() > 0 {
        repofile.exclude = Some(toml_vec);
    }
    proof {
        assert(repo_file_view(*repofile) =~~= apply_exclude_section(m0, *toml_value));
    }
}

/* Whole documents and whole files. */

/// One table entry of a parsed segment, applied by its key.
pub open spec fn apply_entry(m: RepoFileModel, e: (String, TomlValue)) -> RepoFileModel {
    if e.0@ == "repo"@ {
        apply_repo_section(m, e.1)
    } else if e.0@ == "include_as"@ {
        apply_include_as_section(m, e.1)
    } else if e.0@ == "inc"@ + "lude"@ {
        apply_include_section(m, e.1)
    } else if e.0@ == "exclude"@ {
        apply_exclude_section(m, e.1)
    } else {
        m
    }
}

pub open spec fn entries_upto(m: RepoFileModel, entries: Seq<(String, TomlValue)>, i: int)
    -> RepoFileModel
    decreases i,
{
    if i <= 0 {
        m
    } else {
        apply_entry(entries_upto(m, entries, i - 1), entries[i - 1])
    }
}

/// One segment's worth of effect: its document, when it parses as a
/// table, applied entry by entry.
pub open spec fn apply_segment(m: RepoFileModel, text: Seq<char>) -> RepoFileModel {
    match toml_parse_of(text) {
        Some(doc) => match doc {
            TomlValue::Table(t) => entries_upto(m, t@, t@.len() as int),
            _ => m,
        },
        None => m,
    }
}

pub open spec fn segments_upto(m: RepoFileModel, texts: Seq<Seq<char>>, i: int) -> RepoFileModel
    decreases i,
{
    if i <= 0 {
        m
    } else {
        apply_segment(segments_upto(m, texts, i - 1), texts[i - 1])
    }
}

pub open spec fn strs_view(ss: Seq<String>) -> Seq<Seq<char>> {
    ss.map_values(|s: String| s@)
}

/// Parse each segment as its own TOML document and fold its sections into
/// one repo file, in order; segments that do not parse are skipped.
pub fn parse_repo_file_from_toml_segments(toml_segments: Vec<String>) -> (r: RepoFile)
    ensures
        repo_file_view(r) == segments_upto(
            empty_repo_file_model(),
            strs_view(toml_segments@),
            toml_segments@.len() as int,
        ),
{
    let mut repo_file = RepoFile::new();
    let n = toml_segments.len();
    let mut i: usize = 0;
    while i < n
        invariant
            0 <= i <= n,
            n == toml_segments@.len(),
            repo_file_view(repo_file) == segments_upto(
                empty_repo_file_model(),
                strs_view(toml_segments@),
                i as int,
            ),
        decreases n - i,
    {
        let ghost pre = repo_file_view(repo_file);
        let include_key: String = "inc".to_owned().concat("lude");
        proof {
            assert(include_key@ == "inc"@ + "lude"@);
        }
        let s = &toml_segments[i];
        proof {
            assert(strs_view(toml_segments@)[i as int] == s@);
        }
        match parse_toml_segment(s.as_str()) {
            None => {
                proof {
                    assert(repo_file_view(repo_file) == apply_segment(pre, s@));
                }
            },
            Some(doc) => {
                match &doc {
                    TomlValue::Table(t) => {
                        let en = t.len();
                        let mut j: usize = 0;
                        while j < en
                            invariant
                                0 <= j <= en,
                                en == t@.len(),
                                doc == TomlValue::Table(*t),
                                include_key@ == "inc"@ + "lude"@,
                                repo_file_view(repo_file) == entries_upto(pre, t@, j as int),
                            decreases en - j,
                        {
                            let ghost mid = repo_file_view(repo_file);
                            let k = &t[j].0;
                            let v = &t[j].1;
                            if str_eq(k.as_str(), "repo") {
                                parse_repo_section(v, &mut repo_file);
                            } else if str_eq(k.as_str(), "include_as") {
                                parse_include_as_section(v, &mut repo_file);
                            } else if str_eq(k.as_str(), include_key.as_str()) {
                                parse_include_section(v, &mut repo_file);
                            } else if str_eq(k.as_str(), "exclude") {
                                parse_exclude_section(v, &mut repo_file);
                            }
                            proof {
                                reveal_strlit("repo");
                                reveal_strlit("include_as");
                                reveal_strlit("inc");
                                reveal_strlit("lude");
                                reveal_strlit("exclude");
                                assert("repo"@.len() == 4 && "include_as"@.len() == 10
                                    && ("inc"@ + "lude"@).len() == 7 && "exclude"@.len() == 7);
                                assert(("inc"@ + "lude"@)[0] == 'i' && "exclude"@[0] == 'e');
                                assert(repo_file_view(repo_file) == apply_entry(mid, t@[j as int]));
                            }
                            j = j + 1;
                        }
                        proof {
                            assert(repo_file_view(repo_file) == apply_segment(pre, s@));
                        }
                    },
                    _ => {
                        proof {
                            assert(repo_file_view(repo_file) == apply_segment(pre, s@));
                        }
                    },
                }
            },
        }
        i = i + 1;
    }
    repo_file
}

/* Splitting a file's lines into segments. */

/// First pass over the lines: the indices at which a second consecutive
/// break line starts a new segment, with the running was-break flag.
pub open spec fn seg_pass(lines: Seq<String>, i: int) -> (bool, Seq<int>)
    decreases i,
{
    if i <= 0 {
        (false, seq![])
    } else {
        let prev = seg_pass(lines, i - 1);
        if is_break_spec(lines[i - 1]@) {
            if prev.0 {
                (false, prev.1.push(i - 1))
            } else {
                (true, prev.1)
            }
        } else {
            prev
        }
    }
}

/// The segment boundaries: every double-break index, then the end.
pub open spec fn seg_indices(lines: Seq<String>) -> Seq<int> {
    seg_pass(lines, lines.len() as int).1.push(lines.len() as int)
}

/// The lines `a..b` joined with newlines.
pub open spec fn join_range(lines: Seq<String>, a: int, b: int) -> Seq<char>
    decreases b - a,
{
    if b <= a {
        seq![]
    } else if b == a + 1 {
        lines[a]@
    } else {
        join_range(lines, a, b - 1) + seq!['\n'] + lines[b - 1]@
    }
}

/// Second pass: walk the boundaries, emitting each nonempty group of
/// lines as one joined segment text.
pub open spec fn group_pass(lines: Seq<String>, idxs: Seq<int>, j: int) -> (int, Seq<Seq<char>>)
    decreases j,
{
    if j <= 0 {
        (0, seq![])
    } else {
        let prev = group_pass(lines, idxs, j - 1);
        let i = idxs[j - 1];
        if i <= prev.0 {
            prev
        } else {
            (i, prev.1.push(join_range(lines, prev.0, i)))
        }
    }
}

/// The segment texts of a file's lines.
pub open spec fn segment_texts(lines: Seq<String>) -> Seq<Seq<char>> {
    group_pass(lines, seg_indices(lines), seg_indices(lines).len() as int).1
}

pub open spec fn idxs_view(v: Seq<usize>) -> Seq<int> {
    v.map_values(|x: usize| x as int)
}

/// Split the file's lines into segments at double break lines, parse each
/// segment as its own TOML document, and fold all sections into one repo
/// file.
pub fn parse_repo_file_from_toml_lines(lines: Vec<String>) -> (r: RepoFile)
    ensures
        repo_file_view(r) == segments_upto(
            empty_repo_file_model(),
            segment_texts(lines@),
            segment_texts(lines@).len() as int,
        ),
{
    let n = lines.len();
    let mut last_line_was_break = false;
    let mut segment_indices: Vec<usize> = Vec::new();
    proof {
        assert(idxs_view(segment_indices@) =~= seg_pass(lines@, 0).1);
    }
    let mut i: usize = 0;
    while i < n
        invariant
            0 <= i <= n,
            n == lines@.len(),
            last_line_was_break == seg_pass(lines@, i as int).0,
            idxs_view(segment_indices@) =~= seg_pass(lines@, i as int).1,
            forall|k: int|
                0 <= k < segment_indices@.len() ==> (#[trigger] segment_indices@[k]) < n,
        decreases n - i,
    {
        let ghost prev = segment_indices@;
        if line_is_break(&lines[i]) {
            if last_line_was_break {
                segment_indices.push(i);
                last_line_was_break = false;
                proof {
                    assert(idxs_view(segment_indices@) =~= idxs_view(prev).push(i as int));
                }
            } else {
                last_line_was_break = true;
            }
        }
        i = i + 1;
    }
    let ghost pass1 = seg_pass(lines@, n as int).1;
    segment_indices.push(n);
    proof {
        assert(idxs_view(segment_indices@) =~= pass1.push(n as int));
        assert(idxs_view(segment_indices@) =~= seg_indices(lines@));
    }

    let ghost idxs = seg_indices(lines@);
    let m = segment_indices.len();
    let mut current_index: usize = 0;
    let mut toml_segments: Vec<String> = Vec::new();
    let mut j: usize = 0;
    while j < m
        invariant
            0 <= j <= m,
            n == lines@.len(),
            m == segment_indices@.len(),
            idxs == idxs_view(segment_indices@),
            idxs == seg_indices(lines@),
            forall|k: int| 0 <= k < m ==> (#[trigger] segment_indices@[k]) <= n,
            current_index as int == group_pass(lines@, idxs, j as int).0,
            current_index <= n,
            strs_view(toml_segments@) =~= group_pass(lines@, idxs, j as int).1,
        decreases m - j,
    {
        let ghost gprev = group_pass(lines@, idxs, j as int);
        let idx = segment_indices[j];
        if idx > current_index {
            let mut seg: String = lines[current_index].clone();
            proof {
                reveal_strlit("\n");
                assert("\n"@ =~= seq!['\n']);
                assert(seg@ == join_range(lines@, current_index as int, current_index as int + 1));
            }
            let mut k: usize = current_index + 1;
            while k < idx
                invariant
                    current_index < k <= idx,
                    idx <= n,
                    n == lines@.len(),
                    "\n"@ =~= seq!['\n'],
                    seg@ == join_range(lines@, current_index as int, k as int),
                decreases idx - k,
            {
                seg.append("\n");
                seg.append(lines[k].as_str());
                proof {
                    assert(seg@ =~= join_range(lines@, current_index as int, k as int + 1));
                }
                k = k + 1;
            }
            toml_segments.push(seg);
            proof {
                assert(strs_view(toml_segments@) =~= gprev.1.push(
                    join_range(lines@, current_index as int, idx as int),
                ));
            }
            current_index = idx;
        }
        j = j + 1;
    }
    proof {
        assert(strs_view(toml_segments@) =~= segment_texts(lines@));
    }
    let r = parse_repo_file_from_toml_segments(toml_segments);
    r
}

} // verus!
