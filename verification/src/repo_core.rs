//! Repository-name extraction and repo-file array validation: the pure
//! decision logic under the branch-splitting commands.

use vstd::prelude::*;
use vstd::string::StrSliceExecFns;
use vstd::string::StringExecFns;

verus! {

/// The file extension a repo file carries.
pub const VALID_REPO_FILE_EXTENSION: &'static str = "rf";

/// The characters `str::trim_end` strips: the Unicode white-space set.
pub open spec fn is_rust_ws(c: char) -> bool {
    ||| ('\u{9}' <= c && c <= '\u{D}')
    ||| c == ' '
    ||| c == '\u{85}'
    ||| c == '\u{A0}'
    ||| c == '\u{1680}'
    ||| ('\u{2000}' <= c && c <= '\u{200A}')
    ||| c == '\u{2028}'
    ||| c == '\u{2029}'
    ||| c == '\u{202F}'
    ||| c == '\u{205F}'
    ||| c == '\u{3000}'
}

fn ws_char(c: char) -> (r: bool)
    ensures
        r == is_rust_ws(c),
{
    ('\u{9}' <= c && c <= '\u{D}') || c == ' ' || c == '\u{85}' || c == '\u{A0}' || c == '\u{1680}'
        || ('\u{2000}' <= c && c <= '\u{200A}') || c == '\u{2028}' || c == '\u{2029}' || c
        == '\u{202F}' || c == '\u{205F}' || c == '\u{3000}'
}

/// Length of `s` once trailing white space is stripped.
pub open spec fn trim_end_len(s: Seq<char>) -> int
    decreases s.len(),
{
    if s.len() == 0 {
        0
    } else if is_rust_ws(s.last()) {
        trim_end_len(s.drop_last())
    } else {
        s.len() as int
    }
}

pub open spec fn trim_end_spec(s: Seq<char>) -> Seq<char> {
    s.subrange(0, trim_end_len(s))
}

proof fn lemma_trim_end_len_bounds(s: Seq<char>)
    ensures
        0 <= trim_end_len(s) <= s.len(),
    decreases s.len(),
{
    if s.len() > 0 && is_rust_ws(s.last()) {
        lemma_trim_end_len_bounds(s.drop_last());
    }
}

/// First index at or after `from` holding `c`, or the length.
pub open spec fn char_find_from(s: Seq<char>, c: char, from: int) -> int
    decreases s.len() - from,
{
    if from < 0 {
        0
    } else if from >= s.len() {
        s.len() as int
    } else if s[from] == c {
        from
    } else {
        char_find_from(s, c, from + 1)
    }
}

proof fn lemma_char_find_from(s: Seq<char>, c: char, from: int)
    requires
        0 <= from <= s.len(),
    ensures
        from <= char_find_from(s, c, from) <= s.len(),
        forall|k: int| from <= k < char_find_from(s, c, from) ==> s[k] != c,
        char_find_from(s, c, from) < s.len() ==> s[char_find_from(s, c, from)] == c,
    decreases s.len() - from,
{
    if from < s.len() && s[from] != c {
        lemma_char_find_from(s, c, from + 1);
    }
}

/// Last index holding `c`, or `-1`.
pub open spec fn char_find_last(s: Seq<char>, c: char) -> int
    decreases s.len(),
{
    if s.len() == 0 {
        -1
    } else if s.last() == c {
        s.len() - 1
    } else {
        char_find_last(s.drop_last(), c)
    }
}

proof fn lemma_char_find_last_bounds(s: Seq<char>, c: char)
    ensures
        -1 <= char_find_last(s, c) < s.len(),
    decreases s.len(),
{
    if s.len() > 0 && s.last() != c {
        lemma_char_find_last_bounds(s.drop_last(), c);
    }
}

/// What follows the last occurrence of `c`; all of `s` when none.
pub open spec fn after_last_spec(s: Seq<char>, c: char) -> Seq<char> {
    if char_find_last(s, c) == -1 {
        s
    } else {
        s.subrange(char_find_last(s, c) + 1, s.len() as int)
    }
}

/// What precedes the first `.`; all of `s` when none.
pub open spec fn before_first_dot_spec(s: Seq<char>) -> Seq<char> {
    s.subrange(0, char_find_from(s, '.', 0))
}

fn find_char_from(s: &str, c: char, from: usize) -> (r: usize)
    requires
        from <= s@.len(),
    ensures
        r == char_find_from(s@, c, from as int),
        from <= r <= s@.len(),
{
    let n = s.unicode_len();
    let mut k: usize = from;
    while k < n && s.get_char(k) != c
        invariant
            n == s@.len(),
            from <= k <= n,
            char_find_from(s@, c, from as int) == char_find_from(s@, c, k as int),
        decreases n - k,
    {
        k = k + 1;
    }
    proof {
        lemma_char_find_from(s@, c, from as int);
    }
    k
}

fn find_char_last(s: &str, c: char) -> (r: Option<usize>)
    ensures
        ({
            let l = char_find_last(s@, c);
            match r {
                Some(k) => l == k,
                None => l == -1,
            }
        }),
{
    let n = s.unicode_len();
    let mut best: Option<usize> = None;
    let mut k: usize = 0;
    while k < n
        invariant
            n == s@.len(),
            0 <= k <= n,
            ({
                let l = char_find_last(s@.subrange(0, k as int), c);
                match best {
                    Some(b) => l == b,
                    None => l == -1,
                }
            }),
        decreases n - k,
    {
        proof {
            assert(s@.subrange(0, k as int + 1).drop_last() =~= s@.subrange(0, k as int));
            assert(s@.subrange(0, k as int + 1).last() == s@[k as int]);
        }
        if s.get_char(k) == c {
            best = Some(k);
        }
        k = k + 1;
    }
    proof {
        assert(s@.subrange(0, n as int) =~= s@);
    }
    best
}

/// Strip trailing white space, as `str::trim_end` does.
fn trim_end_owned(s: &str) -> (r: String)
    ensures
        r@ == trim_end_spec(s@),
{
    let n = s.unicode_len();
    let mut k: usize = n;
    proof {
        assert(s@.subrange(0, n as int) =~= s@);
    }
    while k > 0 && ws_char(s.get_char(k - 1))
        invariant
            0 <= k <= n,
            n == s@.len(),
            trim_end_len(s@) == trim_end_len(s@.subrange(0, k as int)),
        decreases k,
    {
        proof {
            assert(s@.subrange(0, k as int).drop_last() =~= s@.subrange(0, k as int - 1));
            assert(s@.subrange(0, k as int).last() == s@[k as int - 1]);
        }
        k = k - 1;
    }
    proof {
        lemma_trim_end_len_bounds(s@.subrange(0, k as int));
        if k > 0 {
            assert(s@.subrange(0, k as int).last() == s@[k as int - 1]);
            assert(trim_end_len(s@.subrange(0, k as int)) == k as int);
        }
        assert(trim_end_len(s@) == k as int);
    }
    s.substring_char(0, k).to_owned()
}

/* Guarding the git-url parser.
 *
 * `GitUrl::parse`, in the version Cargo.lock pins, indexes path segments
 * unconditionally and panics on some inputs it admits: an Azure host
 * spelling with fewer path segments than its layout expects
 * (`https://dev.azure.com/a/b`), and an ssh-scheme URL whose normalized
 * path collapses to a single byte (`ssh:a`, or a query right after the
 * leading slash).  The parser is therefore only called on strings the
 * guard below admits; everything else counts as not a valid remote.  The
 * guard is deliberately conservative, because the url crate strips
 * control characters, tabs and surrounding spaces, percent- and
 * IDNA-decodes host names, and collapses `.` and `..` path segments,
 * any of which would let an excluded spelling or a collapsed path slip
 * past a plain substring test: printable ASCII only, no space, no
 * query, fragment or percent escape, no case-insensitive Azure host
 * spelling anywhere, no `ssh:` form without an authority, and no dot
 * right after a slash or colon (the segments such a dot can open are
 * what collapses an ssh path to the single byte the parser indexes
 * past). */

/// Lower-case an ASCII letter; leave every other character alone.
pub open spec fn lower_char(c: char) -> char {
    if 'A' <= c && c <= 'Z' {
        ((c as u8) + 32) as char
    } else {
        c
    }
}

fn lower_char_exec(c: char) -> (r: char)
    ensures
        r == lower_char(c),
{
    if 'A' <= c && c <= 'Z' {
        ((c as u8) + 32) as char
    } else {
        c
    }
}

/// The host spelling whose path layout the parser indexes into.
pub open spec fn azure_host() -> Seq<char> {
    "dev.azure.com"@
}

/// The pattern stands, ASCII-case-insensitively, at position `k` of `s`.
pub open spec fn ci_match_at(s: Seq<char>, pat: Seq<char>, k: int) -> bool {
    &&& 0 <= k
    &&& k + pat.len() <= s.len()
    &&& forall|j: int| 0 <= j < pat.len() ==> lower_char(s[k + j]) == #[trigger] pat[j]
}

pub open spec fn contains_ci(s: Seq<char>, pat: Seq<char>) -> bool {
    exists|k: int| ci_match_at(s, pat, k)
}

/// The strings the git-url parser is given: printable ASCII without
/// space, `%`, `?` or `#`, no Azure host spelling, and `ssh:` only with
/// a full `ssh://` authority.
pub open spec fn url_guard(s: Seq<char>) -> bool {
    &&& forall|i: int| 0 <= i < s.len() ==> (' ' < #[trigger] s[i] <= '~')
    &&& forall|i: int|
        0 <= i < s.len() ==> ((#[trigger] s[i]) != '%' && s[i] != '?' && s[i] != '#')
    &&& forall|i: int|
        0 < i < s.len() ==> !((#[trigger] s[i]) == '.' && (s[i - 1] == '/' || s[i - 1] == ':'))
    &&& !contains_ci(s, azure_host())
    &&& ci_match_at(s, "ssh:"@, 0) ==> (s.len() >= 6 && s[4] == '/' && s[5] == '/')
}

fn ci_match_at_exec(s: &str, pat: &str, k: usize) -> (r: bool)
    ensures
        r == ci_match_at(s@, pat@, k as int),
{
    let n = s.unicode_len();
    let m = pat.unicode_len();
    if k > n || m > n - k {
        return false;
    }
    let mut j: usize = 0;
    while j < m
        invariant
            0 <= j <= m,
            n == s@.len(),
            m == pat@.len(),
            k + m <= n,
            forall|j2: int| 0 <= j2 < j ==> lower_char(s@[k + j2]) == #[trigger] pat@[j2],
        decreases m - j,
    {
        if lower_char_exec(s.get_char(k + j)) != pat.get_char(j) {
            return false;
        }
        j = j + 1;
    }
    true
}

fn contains_ci_exec(s: &str, pat: &str) -> (r: bool)
    ensures
        r == contains_ci(s@, pat@),
{
    let n = s.unicode_len();
    let m = pat.unicode_len();
    if m == 0 {
        proof {
            assert(ci_match_at(s@, pat@, 0));
        }
        return true;
    }
    let mut k: usize = 0;
    while k < n
        invariant
            0 <= k <= n,
            n == s@.len(),
            m == pat@.len(),
            m > 0,
            forall|k2: int| 0 <= k2 < k ==> !ci_match_at(s@, pat@, k2),
        decreases n - k,
    {
        if ci_match_at_exec(s, pat, k) {
            return true;
        }
        k = k + 1;
    }
    proof {
        assert forall|k2: int| !ci_match_at(s@, pat@, k2) by {
            if 0 <= k2 < s@.len() {
                assert(!ci_match_at(s@, pat@, k2));
            } else if k2 >= s@.len() {
                assert(k2 + pat@.len() > s@.len());
            }
        }
    }
    false
}

/// Whether the guard admits the string, decided exactly.
fn url_guard_check(s: &str) -> (r: bool)
    ensures
        r == url_guard(s@),
{
    let n = s.unicode_len();
    let mut i: usize = 0;
    while i < n
        invariant
            0 <= i <= n,
            n == s@.len(),
            forall|j: int| 0 <= j < i ==> (' ' < #[trigger] s@[j] <= '~'),
            forall|j: int|
                0 <= j < i ==> ((#[trigger] s@[j]) != '%' && s@[j] != '?' && s@[j] != '#'),
            forall|j: int|
                0 < j < i ==> !((#[trigger] s@[j]) == '.' && (s@[j - 1] == '/' || s@[j - 1]
                    == ':')),
        decreases n - i,
    {
        let c = s.get_char(i);
        if !(' ' < c && c <= '~') || c == '%' || c == '?' || c == '#' {
            return false;
        }
        if c == '.' && i > 0 {
            let prev = s.get_char(i - 1);
            if prev == '/' || prev == ':' {
                return false;
            }
        }
        i = i + 1;
    }
    if contains_ci_exec(s, "dev.azure.com") {
        return false;
    }
    if ci_match_at_exec(s, "ssh:", 0) {
        if n < 6 {
            return false;
        }
        if s.get_char(4) != '/' || s.get_char(5) != '/' {
            return false;
        }
    }
    true
}

/// Relies on `git_url_parse`'s `GitUrl::parse`: whether a string parses
/// as a git URL is a function of the string alone.
pub uninterp spec fn git_url_parses(s: Seq<char>) -> bool;

/// Relies on `git_url_parse::GitUrl::parse` to decide whether the remote
/// names a well-formed git URL.  The guard keeps this call away from the
/// inputs on which this version of the parser panics.
#[verifier::external_body]
fn git_url_check(remote_repo: &str) -> (r: bool)
    requires
        url_guard(remote_repo@),
    ensures
        r == git_url_parses(remote_repo@),
{
    git_url_parse::GitUrl::parse(remote_repo).is_ok()
}

/// Whether the remote names a well-formed git URL: it passes the parser
/// guard and the parser accepts it.  Guard-rejected strings count as
/// invalid.
pub fn is_valid_remote_repo(remote_repo: &String) -> (r: bool)
    ensures
        r == (url_guard(remote_repo@) && git_url_parses(remote_repo@)),
{
    if url_guard_check(remote_repo.as_str()) {
        git_url_check(remote_repo.as_str())
    } else {
        false
    }
}

/// The repository name read out of `s` around `slash`: trim the end, give
/// up unless the whole string parses as a git URL, drop one trailing
/// slash, require a slash, then take what follows the last slash up to
/// its first dot.
pub open spec fn repo_name_of(s: Seq<char>, slash: char) -> Seq<char> {
    let t = trim_end_spec(s);
    let t2 = if !(url_guard(s) && git_url_parses(s)) {
        Seq::<char>::empty()
    } else {
        t
    };
    let t3 = if t2.len() > 0 && t2.last() == slash {
        t2.drop_last()
    } else {
        t2
    };
    let t4 = if char_find_from(t3, slash, 0) == t3.len() {
        Seq::<char>::empty()
    } else {
        t3
    };
    before_first_dot_spec(after_last_spec(t4, slash))
}

fn get_string_after_last_slash(s: String, slash_type: char) -> (r: String)
    ensures
        r@ == after_last_spec(s@, slash_type),
{
    proof {
        lemma_char_find_last_bounds(s@, slash_type);
    }
    match find_char_last(s.as_str(), slash_type) {
        Some(k) => {
            let n = s.as_str().unicode_len();
            s.as_str().substring_char(k + 1, n).to_owned()
        },
        None => s,
    }
}

fn get_string_before_first_dot(s: String) -> (r: String)
    ensures
        r@ == before_first_dot_spec(s@),
{
    let k = find_char_from(s.as_str(), '.', 0);
    s.as_str().substring_char(0, k).to_owned()
}

/// Extract the repository name from a remote URL, around one slash kind.
/// Yields the empty string when the remote does not parse as a git URL or
/// carries no such slash.
pub fn try_get_repo_name_with_slash_type(remote_repo: &String, slash_type: char) -> (r: String)
    ensures
        r@ == repo_name_of(remote_repo@, slash_type),
{
    let mut out_str = trim_end_owned(remote_repo.as_str());
    if !is_valid_remote_repo(remote_repo) {
        out_str = String::new();
    }
    let n = out_str.as_str().unicode_len();
    if n > 0 && out_str.as_str().get_char(n - 1) == slash_type {
        proof {
            assert(out_str@.subrange(0, n as int - 1) =~= out_str@.drop_last());
        }
        out_str = out_str.as_str().substring_char(0, n - 1).to_owned();
    }
    let m = out_str.as_str().unicode_len();
    if find_char_from(out_str.as_str(), slash_type, 0) == m {
        out_str = String::new();
    }
    let out_str = get_string_after_last_slash(out_str, slash_type);
    let out_str = get_string_before_first_dot(out_str);
    out_str
}

/// An include or include_as value of the wrong shape: neither a single
/// string nor an even-length array.
#[derive(Debug)]
pub struct InvalidArrayError {
    pub varname: String,
}

/// An include/include_as array is valid as a single entry (where allowed)
/// or as a nonempty even-length list of pairs.
pub fn include_var_valid(var: &Vec<String>, can_be_single: bool) -> (r: bool)
    ensures
        r == ((var@.len() == 1 && can_be_single) || (var@.len() >= 1 && var@.len() % 2 == 0)),
{
    let vlen = var.len();
    if vlen == 1 && can_be_single {
        return true;
    }
    if vlen >= 1 && vlen % 2 == 0 {
        return true;
    }
    false
}

/// Reject an array of the wrong shape, naming the variable; accept an
/// absent one.
pub fn error_if_array_invalid(var: &Option<Vec<String>>, can_be_single: bool, varname: &str) -> (r:
    Result<(), InvalidArrayError>)
    ensures
        r is Err <==> (var matches Some(v) && !((v@.len() == 1 && can_be_single) || (v@.len() >= 1
            && v@.len() % 2 == 0))),
        r matches Err(e) ==> e.varname@ == varname@,
{
    match var {
        Some(v) => {
            if !include_var_valid(v, can_be_single) {
                return Err(InvalidArrayError { varname: varname.to_owned() });
            }
            Ok(())
        },
        None => Ok(()),
    }
}

/* The pure step of the rebase command. */

/// `s` with every occurrence of `pat` removed, scanning left to right:
/// what `str::replace(pat, "")` leaves.
pub open spec fn remove_all_spec(s: Seq<char>, pat: Seq<char>) -> Seq<char>
    decreases s.len(),
{
    if s.len() == 0 {
        seq![]
    } else if 0 < pat.len() <= s.len() && s.subrange(0, pat.len() as int) == pat {
        remove_all_spec(s.skip(pat.len() as int), pat)
    } else {
        seq![s[0]] + remove_all_spec(s.drop_first(), pat)
    }
}

/// The pattern stands, exactly, at position `k` of `s`.
fn str_match_at(s: &str, pat: &str, k: usize) -> (r: bool)
    ensures
        r == (k + pat@.len() <= s@.len() && s@.subrange(k as int, k + pat@.len()) == pat@),
{
    let n = s.unicode_len();
    let m = pat.unicode_len();
    if k > n || m > n - k {
        return false;
    }
    let mut j: usize = 0;
    while j < m
        invariant
            0 <= j <= m,
            n == s@.len(),
            m == pat@.len(),
            k + m <= n,
            forall|j2: int| 0 <= j2 < j ==> s@[k + j2] == #[trigger] pat@[j2],
        decreases m - j,
    {
        if s.get_char(k + j) != pat.get_char(j) {
            proof {
                assert(s@.subrange(k as int, k + pat@.len())[j as int] != pat@[j as int]);
            }
            return false;
        }
        j = j + 1;
    }
    proof {
        assert(s@.subrange(k as int, k + pat@.len()) =~= pat@);
    }
    true
}

/// Remove every occurrence of `pat` from `s`, left to right.
fn remove_all_occurrences(s: &str, pat: &str) -> (r: String)
    requires
        pat@.len() > 0,
    ensures
        r@ == remove_all_spec(s@, pat@),
{
    let n = s.unicode_len();
    let m = pat.unicode_len();
    let mut out = String::new();
    let mut i: usize = 0;
    proof {
        assert(s@.skip(0) =~= s@);
        assert(out@ + remove_all_spec(s@, pat@) =~= remove_all_spec(s@, pat@));
    }
    while i < n
        invariant
            0 <= i <= n,
            n == s@.len(),
            m == pat@.len(),
            m > 0,
            remove_all_spec(s@, pat@) == out@ + remove_all_spec(s@.skip(i as int), pat@),
        decreases n - i,
    {
        let ghost rest = s@.skip(i as int);
        if str_match_at(s, pat, i) {
            proof {
                assert(rest.subrange(0, pat@.len() as int) =~= s@.subrange(
                    i as int,
                    i + pat@.len(),
                ));
                assert(rest.skip(m as int) =~= s@.skip(i as int + m));
                assert(remove_all_spec(rest, pat@) == remove_all_spec(
                    s@.skip(i as int + m),
                    pat@,
                ));
            }
            i = i + m;
        } else {
            proof {
                if 0 < pat@.len() <= rest.len() {
                    assert(rest.subrange(0, pat@.len() as int) =~= s@.subrange(
                        i as int,
                        i + pat@.len(),
                    ));
                }
                assert(rest[0] == s@[i as int]);
                assert(rest.drop_first() =~= s@.skip(i as int + 1));
                assert(remove_all_spec(rest, pat@) == seq![s@[i as int]] + remove_all_spec(
                    s@.skip(i as int + 1),
                    pat@,
                ));
            }
            let ghost out0 = out@;
            let piece = s.substring_char(i, i + 1);
            out.append(piece);
            proof {
                assert(piece@ =~= seq![s@[i as int]]);
                assert(out@ =~= out0 + seq![s@[i as int]]);
                assert(out0 + (seq![s@[i as int]] + remove_all_spec(s@.skip(i as int + 1), pat@))
                    =~= (out0 + seq![s@[i as int]]) + remove_all_spec(s@.skip(i as int + 1), pat@));
            }
            i = i + 1;
        }
    }
    proof {
        assert(s@.skip(n as int) =~= Seq::<char>::empty());
        assert(out@ + Seq::<char>::empty() =~= out@);
    }
    out
}

/// The branch a rebase runs onto: the original ref with every
/// `refs/heads/` spelled out of it, as the rebase command strips it.
pub fn rebase_upstream_name(repo_original_ref: &str) -> (r: String)
    ensures
        r@ == remove_all_spec(repo_original_ref@, "refs/heads/"@),
{
    proof {
        reveal_strlit("refs/heads/");
        assert("refs/heads/"@.len() == 11);
    }
    remove_all_occurrences(repo_original_ref, "refs/heads/")
}

} // verus!
