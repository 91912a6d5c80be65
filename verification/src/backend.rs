//! Connection-string rendering: the external tool's inline backend
//! syntax, with environment-variable expansion and value quoting. The
//! process environment is handed in as an explicit snapshot, so every
//! function here is a pure function of its arguments.

use vstd::prelude::*;

use crate::plan::ResolvedRemote;
use crate::text::{contains_char, str_to_chars, chars_to_string, push_all};

verus! {

/// One variable of the process environment snapshot.
#[derive(Debug)]
pub struct EnvVar {
    /// Variable name.
    pub name: String,
    /// Variable value.
    pub value: String,
}

impl Clone for EnvVar {
    fn clone(&self) -> (r: Self)
        ensures
            r == *self,
    {
        EnvVar { name: self.name.clone(), value: self.value.clone() }
    }
}

/// Value of the first variable of `env` named `name`, if any.
pub open spec fn spec_env_lookup(env: Seq<EnvVar>, name: Seq<char>) -> Option<Seq<char>>
    decreases env.len(),
{
    if env.len() == 0 {
        Option::None
    } else if env[0].name@ == name {
        Option::Some(env[0].value@)
    } else {
        spec_env_lookup(env.skip(1), name)
    }
}

/// Look a variable up in the environment snapshot.
pub fn env_lookup(env: &Vec<EnvVar>, name: &String) -> (r: Option<String>)
    ensures
        match r {
            Option::Some(v) => spec_env_lookup(env@, name@) == Option::Some(v@),
            Option::None => spec_env_lookup(env@, name@) is None,
        },
{
    let n: usize = env.len();
    let mut i: usize = 0;
    proof {
        assert(env@.skip(0) =~= env@);
    }
    while i < n
        invariant
            n == env@.len(),
            i <= n,
            spec_env_lookup(env@, name@) == spec_env_lookup(env@.skip(i as int), name@),
        decreases n - i,
    {
        proof {
            assert(env@.skip(i as int)[0] == env@[i as int]);
        }
        if env[i].name == *name {
            return Option::Some(env[i].value.clone());
        }
        i = i + 1;
        proof {
            assert(env@.skip(i - 1).skip(1) =~= env@.skip(i as int));
        }
    }
    proof {
        assert(env@.skip(n as int) =~= Seq::<EnvVar>::empty());
    }
    Option::None
}

/// A character that may stand in a bare `$NAME` reference: ASCII
/// letters, digits and underscore.
pub open spec fn is_name_char(c: char) -> bool {
    ('a' <= c && c <= 'z') || ('A' <= c && c <= 'Z') || ('0' <= c && c <= '9') || c == '_'
}

/// Whether `c` may stand in a bare `$NAME` reference.
pub fn name_char(c: char) -> (r: bool)
    ensures
        r == is_name_char(c),
{
    ('a' <= c && c <= 'z') || ('A' <= c && c <= 'Z') || ('0' <= c && c <= '9') || c == '_'
}

/// First index at or after `from` holding `c`, if any.
pub open spec fn spec_find_char_from(s: Seq<char>, c: char, from: int) -> Option<int>
    decreases s.len() - from,
{
    if from < 0 || from >= s.len() {
        Option::None
    } else if s[from] == c {
        Option::Some(from)
    } else {
        spec_find_char_from(s, c, from + 1)
    }
}

/// Find the first occurrence of `c` at or after `from`.
pub fn find_char_from(s: &Vec<char>, c: char, from: usize) -> (r: Option<usize>)
    ensures
        match r {
            Option::Some(i) => from <= i < s@.len() && spec_find_char_from(s@, c, from as int)
                == Option::Some(i as int),
            Option::None => spec_find_char_from(s@, c, from as int) is None,
        },
{
    let n: usize = s.len();
    let mut i: usize = from;
    while i < n
        invariant
            n == s@.len(),
            from <= i,
            spec_find_char_from(s@, c, from as int) == spec_find_char_from(s@, c, i as int),
        decreases n - i,
    {
        if s[i] == c {
            return Option::Some(i);
        }
        i = i + 1;
    }
    Option::None
}

/// End of the maximal run of name characters starting at `from`.
pub open spec fn spec_name_run_end(s: Seq<char>, from: int) -> int
    decreases s.len() - from,
{
    if from < 0 || from >= s.len() || !is_name_char(s[from]) {
        from
    } else {
        spec_name_run_end(s, from + 1)
    }
}

/// Scan the maximal run of name characters starting at `from`.
pub fn name_run_end(s: &Vec<char>, from: usize) -> (r: usize)
    requires
        from <= s@.len(),
    ensures
        r as int == spec_name_run_end(s@, from as int),
        from <= r <= s@.len(),
{
    let n: usize = s.len();
    let mut i: usize = from;
    while i < n
        invariant
            n == s@.len(),
            from <= i <= n,
            spec_name_run_end(s@, from as int) == spec_name_run_end(s@, i as int),
        decreases n - i,
    {
        if !name_char(s[i]) {
            return i;
        }
        i = i + 1;
    }
    i
}

/// Copy of `s[lo..hi]`.
pub fn slice_range(s: &Vec<char>, lo: usize, hi: usize) -> (r: Vec<char>)
    requires
        lo <= hi <= s@.len(),
    ensures
        r@ == s@.subrange(lo as int, hi as int),
{
    let mut r: Vec<char> = Vec::new();
    let mut i: usize = lo;
    while i < hi
        invariant
            lo <= i <= hi <= s@.len(),
            r@ == s@.subrange(lo as int, i as int),
        decreases hi - i,
    {
        r.push(s[i]);
        i = i + 1;
        proof {
            assert(r@ =~= s@.subrange(lo as int, i as int));
        }
    }
    r
}

/// `${NAME}` references of `s` replaced left to right by the variable's
/// value; an unknown variable is left verbatim; substituted text is not
/// rescanned; from the first `${` without a closing brace on, the text
/// is kept as it stands.
pub open spec fn spec_expand_braced(s: Seq<char>, env: Seq<EnvVar>) -> Seq<char>
    decreases s.len(),
{
    if s.len() == 0 {
        s
    } else if !(s.len() >= 2 && s[0] == '$' && s[1] == '{') {
        seq![s[0]] + spec_expand_braced(s.skip(1), env)
    } else {
        match spec_find_char_from(s, '}', 2) {
            Option::None => s,
            Option::Some(e0) => {
                // A found index always lies in `[2, len)`; the clipping
                // never acts and only bounds the recursion.
                let e = if 2 <= e0 && e0 < s.len() {
                    e0
                } else {
                    2
                };
                match spec_env_lookup(env, s.subrange(2, e)) {
                    Option::Some(v) => v + spec_expand_braced(s.skip(e + 1), env),
                    Option::None => s.subrange(0, e + 1) + spec_expand_braced(s.skip(e + 1), env),
                }
            },
        }
    }
}

/// Bare `$NAME` references of `s` (maximal runs of name characters)
/// replaced left to right; an unknown variable is left verbatim;
/// substituted text is not rescanned.
pub open spec fn spec_expand_plain(s: Seq<char>, env: Seq<EnvVar>) -> Seq<char>
    decreases s.len(),
{
    if s.len() == 0 {
        s
    } else if s[0] == '$' && !(s.len() >= 2 && s[1] == '{') && clipped_name_run(s) > 1 {
        let e = clipped_name_run(s);
        match spec_env_lookup(env, s.subrange(1, e)) {
            Option::Some(v) => v + spec_expand_plain(s.skip(e), env),
            Option::None => s.subrange(0, e) + spec_expand_plain(s.skip(e), env),
        }
    } else {
        seq![s[0]] + spec_expand_plain(s.skip(1), env)
    }
}

/// The end of the name run after a leading `$`, kept inside the text's
/// bounds; the run end never leaves them, so the clipping never acts.
pub open spec fn clipped_name_run(s: Seq<char>) -> int {
    let e = spec_name_run_end(s, 1);
    if 1 <= e <= s.len() {
        e
    } else {
        1
    }
}

/// Environment-variable expansion: the `${NAME}` pass, then the bare
/// `$NAME` pass over its result.
pub open spec fn spec_expand(s: Seq<char>, env: Seq<EnvVar>) -> Seq<char> {
    spec_expand_plain(spec_expand_braced(s, env), env)
}

/// The name-run end never passes the end of the text.
proof fn lemma_name_run_end_le(s: Seq<char>, from: int)
    requires
        0 <= from <= s.len(),
    ensures
        from <= spec_name_run_end(s, from) <= s.len(),
    decreases s.len() - from,
{
    if from < s.len() && is_name_char(s[from]) {
        lemma_name_run_end_le(s, from + 1);
    }
}

/// Expand `${NAME}` references in a character vector.
fn expand_braced_chars(s: &Vec<char>, env: &Vec<EnvVar>) -> (r: Vec<char>)
    ensures
        r@ == spec_expand_braced(s@, env@),
{
    let n: usize = s.len();
    let mut out: Vec<char> = Vec::new();
    let mut i: usize = 0;
    proof {
        assert(s@.skip(0) =~= s@);
        assert(out@ + spec_expand_braced(s@, env@) =~= spec_expand_braced(s@, env@));
    }
    while i < n
        invariant
            n == s@.len(),
            i <= n,
            spec_expand_braced(s@, env@) == out@ + spec_expand_braced(s@.skip(i as int), env@),
        decreases n - i,
    {
        let ghost suf = s@.skip(i as int);
        if s[i] == '$' && n - i >= 2 && s[i + 1] == '{' {
            // Scan for the closing brace; the scan start maps to index 2
            // of the remaining suffix.
            let found = find_char_from(s, '}', i + 2);
            proof {
                // Relate the scan on `s` to the scan on the suffix.
                lemma_find_shift(s@, '}', i as int, 2);
            }
            match found {
                Option::Some(e) => {
                    let name_chars = slice_range(s, i + 2, e);
                    let name = chars_to_string(&name_chars);
                    proof {
                        assert(suf.subrange(2, e - i) =~= s@.subrange(i + 2, e as int));
                    }
                    match env_lookup(env, &name) {
                        Option::Some(v) => {
                            let vc = str_to_chars(v.as_str());
                            push_all(&mut out, &vc);
                        },
                        Option::None => {
                            let verbatim = slice_range(s, i, e + 1);
                            proof {
                                assert(suf.subrange(0, e + 1 - i) =~= s@.subrange(
                                    i as int,
                                    e + 1,
                                ));
                            }
                            push_all(&mut out, &verbatim);
                        },
                    }
                    proof {
                        assert(suf.skip(e + 1 - i) =~= s@.skip(e + 1));
                    }
                    i = e + 1;
                },
                Option::None => {
                    let tail = slice_range(s, i, n);
                    proof {
                        assert(s@.subrange(i as int, n as int) =~= suf);
                    }
                    push_all(&mut out, &tail);
                    i = n;
                },
            }
        } else {
            proof {
                assert(suf[0] == s@[i as int]);
                assert(suf.skip(1) =~= s@.skip(i + 1));
                if suf.len() >= 2 {
                    assert(suf[1] == s@[i + 1]);
                }
            }
            out.push(s[i]);
            i = i + 1;
        }
    }
    proof {
        assert(s@.skip(n as int) =~= Seq::<char>::empty());
        assert(out@ + spec_expand_braced(s@.skip(n as int), env@) =~= out@);
    }
    out
}

/// A scan from offset `d` of the suffix at `i` agrees with the scan of
/// the whole text from `i + d`.
proof fn lemma_find_shift(s: Seq<char>, c: char, i: int, d: int)
    requires
        0 <= i,
        0 <= d,
        i + d <= s.len(),
    ensures
        spec_find_char_from(s, c, i + d) == match spec_find_char_from(s.skip(i), c, d) {
            Option::Some(e) => Option::Some(e + i),
            Option::None => Option::None,
        },
    decreases s.len() - i - d,
{
    if i + d < s.len() {
        assert(s.skip(i)[d] == s[i + d]);
        if s[i + d] != c {
            lemma_find_shift(s, c, i, d + 1);
        }
    }
}

/// The name run of the suffix at `i`, from offset `d`, agrees with the
/// run of the whole text from `i + d`.
proof fn lemma_name_run_shift(s: Seq<char>, i: int, d: int)
    requires
        0 <= i,
        0 <= d,
        i + d <= s.len(),
    ensures
        spec_name_run_end(s, i + d) == spec_name_run_end(s.skip(i), d) + i,
    decreases s.len() - i - d,
{
    if i + d < s.len() {
        assert(s.skip(i)[d] == s[i + d]);
        if is_name_char(s[i + d]) {
            lemma_name_run_shift(s, i, d + 1);
        }
    }
}

/// Expand bare `$NAME` references in a character vector.
fn expand_plain_chars(s: &Vec<char>, env: &Vec<EnvVar>) -> (r: Vec<char>)
    ensures
        r@ == spec_expand_plain(s@, env@),
{
    let n: usize = s.len();
    let mut out: Vec<char> = Vec::new();
    let mut i: usize = 0;
    proof {
        assert(s@.skip(0) =~= s@);
        assert(out@ + spec_expand_plain(s@, env@) =~= spec_expand_plain(s@, env@));
    }
    while i < n
        invariant
            n == s@.len(),
            i <= n,
            spec_expand_plain(s@, env@) == out@ + spec_expand_plain(s@.skip(i as int), env@),
        decreases n - i,
    {
        let ghost suf = s@.skip(i as int);
        proof {
            assert(suf[0] == s@[i as int]);
            if suf.len() >= 2 {
                assert(suf[1] == s@[i + 1]);
            }
            lemma_name_run_shift(s@, i as int, 1);
            lemma_name_run_end_le(s@, i + 1);
        }
        let is_braced = n - i >= 2 && s[i + 1] == '{';
        if s[i] == '$' && !is_braced && i + 1 < n && name_char(s[i + 1]) {
            proof {
                assert(spec_name_run_end(s@, i + 1) == spec_name_run_end(s@, i + 2));
                lemma_name_run_end_le(s@, i + 2);
            }
            let e = name_run_end(s, i + 1);
            proof {
                assert(spec_name_run_end(suf, 1) == e - i);
                assert(spec_name_run_end(suf, 1) > 1);
                assert(clipped_name_run(suf) == e - i);
                assert(suf.subrange(1, e - i) =~= s@.subrange(i + 1, e as int));
                assert(suf.subrange(0, e - i) =~= s@.subrange(i as int, e as int));
                assert(suf.skip(e - i) =~= s@.skip(e as int));
            }
            let name_chars = slice_range(s, i + 1, e);
            let name = chars_to_string(&name_chars);
            match env_lookup(env, &name) {
                Option::Some(v) => {
                    let vc = str_to_chars(v.as_str());
                    push_all(&mut out, &vc);
                },
                Option::None => {
                    let verbatim = slice_range(s, i, e);
                    push_all(&mut out, &verbatim);
                },
            }
            i = e;
        } else {
            proof {
                assert(suf.skip(1) =~= s@.skip(i + 1));
                if suf.len() >= 2 && suf[0] == '$' && suf[1] != '{' {
                    // No name character follows, so the run from 1 is empty.
                    assert(spec_name_run_end(suf, 1) == spec_name_run_end(s@, i + 1) - i as int);
                    assert(clipped_name_run(suf) <= 1);
                }
            }
            out.push(s[i]);
            i = i + 1;
        }
    }
    proof {
        assert(s@.skip(n as int) =~= Seq::<char>::empty());
        assert(out@ + spec_expand_plain(s@.skip(n as int), env@) =~= out@);
    }
    out
}

/// Expand environment-variable references in a character vector:
/// `${NAME}` first, then bare `$NAME` over the result.
pub fn expand_chars(s: &Vec<char>, env: &Vec<EnvVar>) -> (r: Vec<char>)
    ensures
        r@ == spec_expand(s@, env@),
{
    let braced = expand_braced_chars(s, env);
    expand_plain_chars(&braced, env)
}

/// Expand `${NAME}` and bare `$NAME` references in a string against the
/// given environment snapshot; unknown variables stay verbatim.
pub fn expand_env_vars(value: &str, env: &Vec<EnvVar>) -> (r: String)
    ensures
        r@ == spec_expand(value@, env@),
{
    let vc = str_to_chars(value);
    let out = expand_chars(&vc, env);
    chars_to_string(&out)
}

/// Whether a value needs quoting: it contains a colon, comma, single
/// quote or double quote.
pub open spec fn spec_needs_quoting(s: Seq<char>) -> bool {
    contains_char(s, ':') || contains_char(s, ',') || contains_char(s, '\'') || contains_char(
        s,
        '"',
    )
}

/// Every single quote of `s` doubled.
pub open spec fn spec_double_quotes(s: Seq<char>) -> Seq<char>
    decreases s.len(),
{
    if s.len() == 0 {
        s
    } else if s[0] == '\'' {
        seq!['\'', '\''] + spec_double_quotes(s.skip(1))
    } else {
        seq![s[0]] + spec_double_quotes(s.skip(1))
    }
}

/// A value as it stands in a connection string: wrapped in single
/// quotes, its own single quotes doubled, whenever it contains a colon,
/// comma, single quote or double quote; unchanged otherwise.
pub open spec fn spec_quote(s: Seq<char>) -> Seq<char> {
    if spec_needs_quoting(s) {
        seq!['\''] + spec_double_quotes(s) + seq!['\'']
    } else {
        s
    }
}

/// Quote a value for a connection string.
pub fn quote_chars(s: &Vec<char>) -> (r: Vec<char>)
    ensures
        r@ == spec_quote(s@),
{
    let needs = crate::text::chars_contain_char(s, ':') || crate::text::chars_contain_char(s, ',')
        || crate::text::chars_contain_char(s, '\'') || crate::text::chars_contain_char(s, '"');
    if !needs {
        let r = crate::backend::slice_range(s, 0, s.len());
        proof {
            assert(s@.subrange(0, s@.len() as int) =~= s@);
        }
        return r;
    }
    let n: usize = s.len();
    let mut out: Vec<char> = Vec::new();
    out.push('\'');
    let mut i: usize = 0;
    proof {
        assert(s@.skip(0) =~= s@);
        assert(out@ + spec_double_quotes(s@.skip(0)) =~= seq!['\''] + spec_double_quotes(s@));
    }
    while i < n
        invariant
            n == s@.len(),
            i <= n,
            out@ + spec_double_quotes(s@.skip(i as int)) == seq!['\''] + spec_double_quotes(s@),
        decreases n - i,
    {
        proof {
            assert(s@.skip(i as int)[0] == s@[i as int]);
            assert(s@.skip(i as int).skip(1) =~= s@.skip(i + 1));
        }
        if s[i] == '\'' {
            out.push('\'');
            out.push('\'');
        } else {
            out.push(s[i]);
        }
        i = i + 1;
    }
    out.push('\'');
    proof {
        assert(s@.skip(n as int) =~= Seq::<char>::empty());
        assert(out@ =~= seq!['\''] + spec_double_quotes(s@) + seq!['\'']);
    }
    out
}

/// Quote a value for the external tool's connection-string syntax: a
/// value holding a colon, comma, single quote or double quote is
/// wrapped in single quotes with embedded single quotes doubled; any
/// other value is returned unchanged.
pub fn quote_rclone_value(value: &str) -> (r: String)
    ensures
        r@ == spec_quote(value@),
        spec_needs_quoting(value@) ==> r@ == seq!['\''] + spec_double_quotes(value@)
            + seq!['\''],
        !spec_needs_quoting(value@) ==> r@ == value@,
{
    let vc = str_to_chars(value);
    let out = quote_chars(&vc);
    chars_to_string(&out)
}

/// The rendered options of a storage backend, each as `,key=value` with
/// the value expanded and quoted, in list order.
pub open spec fn spec_comma_opts(opts: Seq<crate::config::RemoteOption>, env: Seq<EnvVar>) -> Seq<
    char,
>
    decreases opts.len(),
{
    if opts.len() == 0 {
        Seq::empty()
    } else {
        spec_comma_opts(opts.drop_last(), env) + seq![','] + opts.last().key@ + seq!['=']
            + spec_quote(spec_expand(opts.last().value@, env))
    }
}

/// The synthesized leading `,bucket=` option, when a bucket is set.
pub open spec fn spec_bucket_part(bucket: Option<String>, env: Seq<EnvVar>) -> Seq<char> {
    match bucket {
        Option::Some(b) => seq![','] + "bucket="@ + spec_quote(spec_expand(b@, env)),
        Option::None => Seq::empty(),
    }
}

/// The inline backend string of a direct (non-wrapping) backend:
/// `:type[,bucket=...][,opt=value...]:path`.
pub open spec fn spec_storage_backend(rr: ResolvedRemote, path: Seq<char>, env: Seq<EnvVar>) -> Seq<
    char,
> {
    seq![':'] + rr.remote_type@ + spec_bucket_part(rr.bucket, env) + spec_comma_opts(
        rr.options@,
        env,
    ) + seq![':'] + path
}

/// Index of the last colon of `s`, if any.
pub open spec fn spec_rfind_colon(s: Seq<char>) -> Option<int>
    decreases s.len(),
{
    if s.len() == 0 {
        Option::None
    } else if s.last() == ':' {
        Option::Some(s.len() - 1)
    } else {
        spec_rfind_colon(s.drop_last())
    }
}

/// The wrap path of a crypt remote, empty when absent.
pub open spec fn spec_wrap_path_view(rr: ResolvedRemote) -> Seq<char> {
    match rr.wrap_path {
        Option::Some(p) => p@,
        Option::None => Seq::empty(),
    }
}

/// The inline backend string of any resolved remote: crypt remotes
/// render as wrappers, everything else as a direct backend.
pub open spec fn spec_backend(rr: ResolvedRemote, path: Seq<char>, env: Seq<EnvVar>) -> Seq<char>
    decreases rr, 1int,
{
    if rr.remote_type@ == "crypt"@ {
        spec_crypt_backend(rr, path, env)
    } else {
        spec_storage_backend(rr, path, env)
    }
}

/// The inline backend string of a crypt remote: the wrapped backend is
/// rendered with the wrap path, everything up to and including its last
/// colon is kept and the wrap path re-appended to form the `remote=`
/// option, then the encryption options and the crypt node's own path.
pub open spec fn spec_crypt_backend(rr: ResolvedRemote, path: Seq<char>, env: Seq<EnvVar>) -> Seq<
    char,
>
    decreases rr, 0int,
{
    let inner = match rr.wrap_remote {
        Option::Some(w) => spec_backend(*w, spec_wrap_path_view(rr), env),
        Option::None => Seq::empty(),
    };
    let inner_base = match spec_rfind_colon(inner) {
        Option::Some(ix) => if 0 <= ix < inner.len() {
            inner.subrange(0, ix + 1)
        } else {
            inner
        },
        Option::None => inner,
    };
    seq![':'] + "crypt"@ + seq![','] + "remote="@ + inner_base + spec_wrap_path_view(rr) + (
    match rr.filename_encryption {
        Option::Some(fe) => seq![','] + "filename_encryption="@ + fe@,
        Option::None => Seq::empty(),
    }) + (match rr.directory_name_encryption {
        Option::Some(b) => seq![','] + "directory_name_encryption="@ + (if b {
            "true"@
        } else {
            "false"@
        }),
        Option::None => Seq::empty(),
    }) + seq![':'] + path
}

/// Find the last colon of a character vector.
pub fn rfind_colon(s: &Vec<char>) -> (r: Option<usize>)
    ensures
        match r {
            Option::Some(i) => i < s@.len() && spec_rfind_colon(s@) == Option::Some(i as int),
            Option::None => spec_rfind_colon(s@) is None,
        },
{
    let n: usize = s.len();
    let mut i: usize = n;
    proof {
        assert(s@.subrange(0, n as int) =~= s@);
    }
    while i > 0
        invariant
            n == s@.len(),
            i <= n,
            spec_rfind_colon(s@) == spec_rfind_colon(s@.subrange(0, i as int)),
        decreases i,
    {
        proof {
            assert(s@.subrange(0, i as int).last() == s@[i - 1]);
            assert(s@.subrange(0, i as int).drop_last() =~= s@.subrange(0, i - 1));
        }
        if s[i - 1] == ':' {
            return Option::Some(i - 1);
        }
        i = i - 1;
    }
    proof {
        assert(s@.subrange(0, 0) =~= Seq::<char>::empty());
    }
    Option::None
}

/// Render one option value: expansion, then quoting.
fn render_value(value: &String, env: &Vec<EnvVar>) -> (r: Vec<char>)
    ensures
        r@ == spec_quote(spec_expand(value@, env@)),
{
    let vc = str_to_chars(value.as_str());
    let expanded = expand_chars(&vc, env);
    quote_chars(&expanded)
}

/// Render a direct backend into characters.
fn build_storage_chars(rr: &ResolvedRemote, path: &Vec<char>, env: &Vec<EnvVar>) -> (r: Vec<char>)
    ensures
        r@ == spec_storage_backend(*rr, path@, env@),
{
    let mut out: Vec<char> = Vec::new();
    out.push(':');
    let tc = str_to_chars(rr.remote_type.as_str());
    push_all(&mut out, &tc);
    match &rr.bucket {
        Option::Some(b) => {
            out.push(',');
            let label = str_to_chars("bucket=");
            push_all(&mut out, &label);
            let v = render_value(b, env);
            push_all(&mut out, &v);
        },
        Option::None => {},
    }
    proof {
        assert(out@ =~= seq![':'] + rr.remote_type@ + spec_bucket_part(rr.bucket, env@));
    }
    let ghost base = out@;
    let m: usize = rr.options.len();
    let mut i: usize = 0;
    proof {
        assert(rr.options@.subrange(0, 0) =~= Seq::<crate::config::RemoteOption>::empty());
        assert(out@ =~= base + spec_comma_opts(rr.options@.subrange(0, 0), env@));
    }
    while i < m
        invariant
            m == rr.options@.len(),
            i <= m,
            out@ == base + spec_comma_opts(rr.options@.subrange(0, i as int), env@),
        decreases m - i,
    {
        out.push(',');
        let kc = str_to_chars(rr.options[i].key.as_str());
        push_all(&mut out, &kc);
        out.push('=');
        let v = render_value(&rr.options[i].value, env);
        push_all(&mut out, &v);
        i = i + 1;
        proof {
            assert(rr.options@.subrange(0, i as int).drop_last() =~= rr.options@.subrange(
                0,
                i - 1,
            ));
            assert(rr.options@.subrange(0, i as int).last() == rr.options@[i - 1]);
            assert(out@ =~= base + spec_comma_opts(rr.options@.subrange(0, i as int), env@));
        }
    }
    proof {
        assert(rr.options@.subrange(0, m as int) =~= rr.options@);
    }
    out.push(':');
    push_all(&mut out, path);
    proof {
        assert(out@ =~= spec_storage_backend(*rr, path@, env@));
    }
    out
}

/// Render a crypt backend into characters.
#[verifier::rlimit(100)]
fn build_crypt_chars(rr: &ResolvedRemote, path: &Vec<char>, env: &Vec<EnvVar>) -> (r: Vec<char>)
    ensures
        r@ == spec_crypt_backend(*rr, path@, env@),
    decreases *rr, 0int,
{
    let wp: Vec<char> = match &rr.wrap_path {
        Option::Some(p) => str_to_chars(p.as_str()),
        Option::None => Vec::new(),
    };
    proof {
        assert(wp@ == spec_wrap_path_view(*rr));
    }
    let inner: Vec<char> = match &rr.wrap_remote {
        Option::Some(w) => build_backend_chars(&**w, &wp, env),
        Option::None => Vec::new(),
    };
    let ghost s_inner = match &rr.wrap_remote {
        Option::Some(w) => spec_backend(**w, spec_wrap_path_view(*rr), env@),
        Option::None => Seq::<char>::empty(),
    };
    proof {
        assert(inner@ == s_inner);
    }
    let inner_len: usize = inner.len();
    let inner_base: Vec<char> = match rfind_colon(&inner) {
        Option::Some(ix) => slice_range(&inner, 0, ix + 1),
        Option::None => {
            let whole = slice_range(&inner, 0, inner_len);
            proof {
                assert(inner@.subrange(0, inner@.len() as int) =~= inner@);
            }
            whole
        },
    };
    let ghost s_base = match spec_rfind_colon(s_inner) {
        Option::Some(ix) => if 0 <= ix < s_inner.len() {
            s_inner.subrange(0, ix + 1)
        } else {
            s_inner
        },
        Option::None => s_inner,
    };
    proof {
        assert(inner_base@ == s_base);
    }
    let mut out: Vec<char> = Vec::new();
    out.push(':');
    let head = str_to_chars("crypt");
    push_all(&mut out, &head);
    out.push(',');
    let label = str_to_chars("remote=");
    push_all(&mut out, &label);
    push_all(&mut out, &inner_base);
    push_all(&mut out, &wp);
    proof {
        assert(out@ =~= seq![':'] + "crypt"@ + seq![','] + "remote="@ + s_base
            + spec_wrap_path_view(*rr));
    }
    let ghost part1 = out@;
    match &rr.filename_encryption {
        Option::Some(fe) => {
            out.push(',');
            let l2 = str_to_chars("filename_encryption=");
            push_all(&mut out, &l2);
            let fec = str_to_chars(fe.as_str());
            push_all(&mut out, &fec);
        },
        Option::None => {},
    }
    proof {
        assert(out@ =~= part1 + (match rr.filename_encryption {
            Option::Some(fe) => seq![','] + "filename_encryption="@ + fe@,
            Option::None => Seq::<char>::empty(),
        }));
    }
    let ghost part2 = out@;
    match rr.directory_name_encryption {
        Option::Some(b) => {
            out.push(',');
            let l3 = str_to_chars("directory_name_encryption=");
            push_all(&mut out, &l3);
            let bv = if b {
                str_to_chars("true")
            } else {
                str_to_chars("false")
            };
            push_all(&mut out, &bv);
        },
        Option::None => {},
    }
    proof {
        assert(out@ =~= part2 + (match rr.directory_name_encryption {
            Option::Some(b) => seq![','] + "directory_name_encryption="@ + (if b {
                "true"@
            } else {
                "false"@
            }),
            Option::None => Seq::<char>::empty(),
        }));
    }
    let ghost part3 = out@;
    out.push(':');
    push_all(&mut out, path);
    proof {
        assert(out@ =~= part3 + seq![':'] + path@);
        lemma_crypt_assembly(*rr, path@, env@, s_inner, s_base, out@);
    }
    out
}

/// A string assembled from the crypt parts is the crypt backend string.
proof fn lemma_crypt_assembly(
    rr: ResolvedRemote,
    path: Seq<char>,
    env: Seq<EnvVar>,
    s_inner: Seq<char>,
    s_base: Seq<char>,
    out: Seq<char>,
)
    requires
        s_inner == match rr.wrap_remote {
            Option::Some(w) => spec_backend(*w, spec_wrap_path_view(rr), env),
            Option::None => Seq::<char>::empty(),
        },
        s_base == match spec_rfind_colon(s_inner) {
            Option::Some(ix) => if 0 <= ix < s_inner.len() {
                s_inner.subrange(0, ix + 1)
            } else {
                s_inner
            },
            Option::None => s_inner,
        },
        out == seq![':'] + "crypt"@ + seq![','] + "remote="@ + s_base + spec_wrap_path_view(rr) + (
        match rr.filename_encryption {
            Option::Some(fe) => seq![','] + "filename_encryption="@ + fe@,
            Option::None => Seq::<char>::empty(),
        }) + (match rr.directory_name_encryption {
            Option::Some(b) => seq![','] + "directory_name_encryption="@ + (if b {
                "true"@
            } else {
                "false"@
            }),
            Option::None => Seq::<char>::empty(),
        }) + seq![':'] + path,
    ensures
        out == spec_crypt_backend(rr, path, env),
{
}

/// Render any resolved remote into characters.
fn build_backend_chars(rr: &ResolvedRemote, path: &Vec<char>, env: &Vec<EnvVar>) -> (r: Vec<char>)
    ensures
        r@ == spec_backend(*rr, path@, env@),
    decreases *rr, 1int,
{
    if crate::text::str_eq(rr.remote_type.as_str(), "crypt") {
        build_crypt_chars(rr, path, env)
    } else {
        build_storage_chars(rr, path, env)
    }
}

/// Build the inline backend connection string of a resolved remote and
/// a path: crypt remotes render as wrappers around their wrapped
/// backend, everything else as `:type[,opt=value...]:path`.
pub fn build_rclone_backend(remote: &ResolvedRemote, remote_path: &str, env: &Vec<EnvVar>) -> (r:
    String)
    ensures
        r@ == spec_backend(*remote, remote_path@, env@),
{
    let pc = str_to_chars(remote_path);
    let out = build_backend_chars(remote, &pc, env);
    chars_to_string(&out)
}

/// Build the inline backend string of a direct backend:
/// `:type[,bucket=...][,opt=value...]:path`, the bucket first, every
/// value expanded against the environment snapshot and quoted.
pub fn build_storage_backend(remote: &ResolvedRemote, remote_path: &str, env: &Vec<EnvVar>) -> (r:
    String)
    ensures
        r@ == spec_storage_backend(*remote, remote_path@, env@),
{
    let pc = str_to_chars(remote_path);
    let out = build_storage_chars(remote, &pc, env);
    chars_to_string(&out)
}

/// Build the inline backend string of a crypt remote.
pub fn build_crypt_backend(remote: &ResolvedRemote, remote_path: &str, env: &Vec<EnvVar>) -> (r:
    String)
    ensures
        r@ == spec_crypt_backend(*remote, remote_path@, env@),
{
    let pc = str_to_chars(remote_path);
    let out = build_crypt_chars(remote, &pc, env);
    chars_to_string(&out)
}

} // verus!
