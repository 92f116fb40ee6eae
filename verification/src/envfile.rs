//! The `.env` configuration format one tool family uses: `KEY=VALUE` lines,
//! comments and blank lines skipped, later duplicates overriding earlier
//! ones. Parsing, rendering, and the credential updates on it are verified
//! against a view-level model of the file.

use vstd::prelude::*;
use crate::text::first_at;
use crate::text::spec_lines;
use crate::text::spec_trim;
use crate::text::split_lines;
use crate::text::str_eq;
use crate::text::str_views;
use crate::text::trim_spaces;
use crate::text::lemma_first_at_is;
use vstd::string::StrSliceExecFns;
use vstd::string::StringExecFns;

verus! {

// ---------------------------------------------------------------------------
// The view-level model: an ordered association of names to values
// ---------------------------------------------------------------------------

/// The position of the first pair named `key`, or `s.len()`.
pub open spec fn vkey_idx(s: Seq<(Seq<char>, Seq<char>)>, key: Seq<char>) -> int
    decreases s.len(),
{
    if s.len() == 0 {
        0
    } else if s[0].0 == key {
        0
    } else {
        1 + vkey_idx(s.drop_first(), key)
    }
}

pub proof fn lemma_vkey_idx_is(s: Seq<(Seq<char>, Seq<char>)>, key: Seq<char>, k: int)
    requires
        0 <= k <= s.len(),
        forall|j: int| 0 <= j < k ==> s[j].0 != key,
        k < s.len() ==> s[k].0 == key,
    ensures
        vkey_idx(s, key) == k,
    decreases k,
{
    if k > 0 {
        assert(s[0].0 != key);
        assert forall|j: int| 0 <= j < k - 1 implies s.drop_first()[j].0 != key by {
            assert(s.drop_first()[j] == s[j + 1]);
        }
        if k - 1 < s.drop_first().len() {
            assert(s.drop_first()[k - 1] == s[k]);
        }
        lemma_vkey_idx_is(s.drop_first(), key, k - 1);
    }
}

/// The value of the first pair named `key`.
pub open spec fn vmap_get(s: Seq<(Seq<char>, Seq<char>)>, key: Seq<char>) -> Option<Seq<char>> {
    if vkey_idx(s, key) < s.len() {
        Some(s[vkey_idx(s, key)].1)
    } else {
        None
    }
}

/// `s` with `key` set to `v`: updated in place when present, appended when
/// not.
pub open spec fn env_put(s: Seq<(Seq<char>, Seq<char>)>, key: Seq<char>, v: Seq<char>) -> Seq<
    (Seq<char>, Seq<char>),
> {
    let i = vkey_idx(s, key);
    if i < s.len() {
        s.update(i, (key, v))
    } else {
        s.push((key, v))
    }
}

// ---------------------------------------------------------------------------
// Parsing
// ---------------------------------------------------------------------------

/// What one line defines: nothing for blank and comment lines and lines
/// without `=`, else the trimmed name and value either side of the first
/// `=`.
pub open spec fn spec_env_line(line: Seq<char>) -> Option<(Seq<char>, Seq<char>)> {
    let t = spec_trim(line);
    if t.len() == 0 || t[0] == '#' {
        None
    } else {
        let i = first_at(t, '=');
        if i == t.len() {
            None
        } else {
            Some((spec_trim(t.take(i)), spec_trim(t.skip(i + 1))))
        }
    }
}

/// The assignments after reading the given lines in order, later definitions
/// of a name overriding earlier ones in place.
pub open spec fn spec_parse_env_lines(lines: Seq<Seq<char>>) -> Seq<(Seq<char>, Seq<char>)>
    decreases lines.len(),
{
    if lines.len() == 0 {
        Seq::empty()
    } else {
        let prev = spec_parse_env_lines(lines.drop_last());
        match spec_env_line(lines.last()) {
            Some(kv) => env_put(prev, kv.0, kv.1),
            None => prev,
        }
    }
}

/// The assignments an `.env` text defines.
pub open spec fn spec_parse_env(text: Seq<char>) -> Seq<(Seq<char>, Seq<char>)> {
    spec_parse_env_lines(spec_lines(text))
}

/// The rendering of the assignments: `NAME=VALUE` lines joined by newlines
/// with one more at the end, so an empty set renders as a single newline.
pub open spec fn spec_render_env(s: Seq<(Seq<char>, Seq<char>)>) -> Seq<char> {
    if s.len() == 0 {
        seq!['\n']
    } else {
        spec_render_lines(s)
    }
}

pub open spec fn spec_render_lines(s: Seq<(Seq<char>, Seq<char>)>) -> Seq<char>
    decreases s.len(),
{
    if s.len() == 0 {
        Seq::empty()
    } else {
        s[0].0 + seq!['='] + s[0].1 + seq!['\n'] + spec_render_lines(s.drop_first())
    }
}

// ---------------------------------------------------------------------------
// The executable file
// ---------------------------------------------------------------------------

/// The views of the entries.
pub open spec fn env_views(v: Seq<(String, String)>) -> Seq<(Seq<char>, Seq<char>)> {
    Seq::new(v.len(), |i: int| (v[i].0@, v[i].1@))
}

/// A parsed `.env` file: assignments in file order, names unique.
pub struct EnvFile {
    pub entries: Vec<(String, String)>,
}

impl EnvFile {
    /// An empty file.
    pub fn new() -> (r: Self)
        ensures
            env_views(r.entries@) == Seq::<(Seq<char>, Seq<char>)>::empty(),
    {
        let r = EnvFile { entries: Vec::new() };
        proof {
            assert(env_views(r.entries@) =~= Seq::<(Seq<char>, Seq<char>)>::empty());
        }
        r
    }

    /// The value assigned to `key`, if any.
    pub fn get(&self, key: &str) -> (r: Option<&String>)
        ensures
            match r {
                Some(v) => vmap_get(env_views(self.entries@), key@) == Some(v@),
                None => vmap_get(env_views(self.entries@), key@) is None,
            },
    {
        let n = self.entries.len();
        let mut i: usize = 0;
        while i < n
            invariant
                n == self.entries@.len(),
                0 <= i <= n,
                forall|j: int| 0 <= j < i ==> env_views(self.entries@)[j].0 != key@,
            decreases n - i,
        {
            if str_eq(self.entries[i].0.as_str(), key) {
                proof {
                    lemma_vkey_idx_is(env_views(self.entries@), key@, i as int);
                }
                return Some(&self.entries[i].1);
            }
            i += 1;
        }
        proof {
            lemma_vkey_idx_is(env_views(self.entries@), key@, n as int);
        }
        None
    }

    /// Assigns `key`: in place when present, appended when new.
    #[verifier::loop_isolation(false)]
    pub fn set(&mut self, key: String, value: String)
        ensures
            env_views(final(self).entries@) == env_put(
                env_views(old(self).entries@),
                key@,
                value@,
            ),
    {
        let ghost v0 = env_views(self.entries@);
        let n = self.entries.len();
        let mut i: usize = 0;
        while i < n
            invariant
                n == self.entries@.len(),
                self.entries@ == old(self).entries@,
                0 <= i <= n,
                forall|j: int| 0 <= j < i ==> env_views(self.entries@)[j].0 != key@,
            decreases n - i,
        {
            if str_eq(self.entries[i].0.as_str(), key.as_str()) {
                proof {
                    lemma_vkey_idx_is(v0, key@, i as int);
                }
                self.entries.set(i, (key, value));
                proof {
                    assert(env_views(self.entries@) =~= env_put(v0, key@, value@));
                }
                return ;
            }
            i += 1;
        }
        proof {
            lemma_vkey_idx_is(v0, key@, n as int);
        }
        self.entries.push((key, value));
        proof {
            assert(env_views(self.entries@) =~= env_put(v0, key@, value@));
        }
    }

    /// Parses an `.env` text.
    #[verifier::loop_isolation(false)]
    pub fn parse(text: &str) -> (r: EnvFile)
        ensures
            env_views(r.entries@) == spec_parse_env(text@),
    {
        let lines = split_lines(text);
        let ghost lv = str_views(lines@);
        let mut out = EnvFile::new();
        let n = lines.len();
        let mut i: usize = 0;
        proof {
            assert(lv.take(0) =~= Seq::<Seq<char>>::empty());
        }
        while i < n
            invariant
                0 <= i <= n,
                env_views(out.entries@) == spec_parse_env_lines(lv.take(i as int)),
            decreases n - i,
        {
            proof {
                assert(lv.take(i + 1).drop_last() =~= lv.take(i as int));
                assert(lv.take(i + 1).last() == lv[i as int]);
            }
            let t = trim_spaces(lines[i].as_str());
            let tn = t.as_str().unicode_len();
            if tn == 0 || t.as_str().get_char(0) == '#' {
                // blank or comment: defines nothing
            } else {
                // find the first '='
                let mut e: usize = 0;
                while e < tn && t.as_str().get_char(e) != '='
                    invariant
                        0 <= e <= tn,
                        forall|j: int| 0 <= j < e ==> t@[j] != '=',
                    decreases tn - e,
                {
                    e += 1;
                }
                proof {
                    lemma_first_at_is(t@, '=', e as int);
                }
                if e < tn {
                    let k = trim_spaces(t.as_str().substring_char(0, e));
                    let v = trim_spaces(t.as_str().substring_char(e + 1, tn));
                    proof {
                        assert(t@.subrange(0, e as int) =~= t@.take(e as int));
                        assert(t@.subrange(e + 1, tn as int) =~= t@.skip(e + 1));
                    }
                    out.set(k, v);
                }
            }
            i += 1;
        }
        proof {
            assert(lv.take(n as int) =~= lv);
        }
        out
    }

    /// Renders the assignments back to text.
    #[verifier::loop_isolation(false)]
    pub fn render(&self) -> (r: String)
        ensures
            r@ == spec_render_env(env_views(self.entries@)),
    {
        let ghost ev = env_views(self.entries@);
        let n = self.entries.len();
        if n == 0 {
            let r = "\n".to_owned();
            proof {
                reveal_strlit("\n");
                assert(r@ =~= seq!['\n']);
            }
            return r;
        }
        let mut s = String::new();
        let mut i: usize = 0;
        proof {
            assert(ev.skip(0) =~= ev);
        }
        while i < n
            invariant
                0 <= i <= n,
                s@ + spec_render_lines(ev.skip(i as int)) == spec_render_lines(ev),
            decreases n - i,
        {
            proof {
                assert(ev.skip(i as int).drop_first() =~= ev.skip(i + 1));
                assert(ev.skip(i as int)[0] == ev[i as int]);
            }
            s.append(self.entries[i].0.as_str());
            s.append("=");
            s.append(self.entries[i].1.as_str());
            s.append("\n");
            proof {
                reveal_strlit("=");
                reveal_strlit("\n");
                assert("="@ =~= seq!['=']);
                assert("\n"@ =~= seq!['\n']);
                assert(s@ + spec_render_lines(ev.skip(i + 1)) =~= spec_render_lines(ev)) by {
                    assert(ev[i as int].0 + seq!['='] + ev[i as int].1 + seq!['\n']
                        + spec_render_lines(ev.skip(i + 1)) =~= spec_render_lines(
                        ev.skip(i as int),
                    ));
                }
            }
            i += 1;
        }
        proof {
            assert(ev.skip(n as int) =~= Seq::<(Seq<char>, Seq<char>)>::empty());
            assert(s@ + Seq::<char>::empty() =~= s@);
        }
        s
    }
}

// ---------------------------------------------------------------------------
// The credential updates on an `.env` file
// ---------------------------------------------------------------------------

/// Configures the API fields: base URL and key are written, and a default
/// model is chosen when none is set yet.
pub fn configure_gemini_env(env: EnvFile, api_key: &str, base_url: &str) -> (r: EnvFile)
    ensures
        ({
            let v0 = env_views(env.entries@);
            let v1 = env_put(v0, "GOOGLE_GEMINI_BASE_URL"@, base_url@);
            let v2 = env_put(v1, "GEMINI_API_KEY"@, api_key@);
            env_views(r.entries@) == (if vmap_get(v2, "GEMINI_MODEL"@) is Some {
                v2
            } else {
                env_put(v2, "GEMINI_MODEL"@, "gemini-2.5-pro"@)
            })
        }),
{
    let mut env = env;
    env.set("GOOGLE_GEMINI_BASE_URL".to_owned(), base_url.to_owned());
    env.set("GEMINI_API_KEY".to_owned(), api_key.to_owned());
    let has_model = match env.get("GEMINI_MODEL") {
        Some(_) => true,
        None => false,
    };
    if !has_model {
        env.set("GEMINI_MODEL".to_owned(), "gemini-2.5-pro".to_owned());
    }
    env
}

/// Switches profiles: the three managed fields of the backup overwrite the
/// active file's assignments; everything else in the active file stays.
pub fn merge_gemini_env(active: EnvFile, backup: &EnvFile) -> (r: EnvFile)
    ensures
        ({
            let a0 = env_views(active.entries@);
            let b = env_views(backup.entries@);
            let a1 = match vmap_get(b, "GOOGLE_GEMINI_BASE_URL"@) {
                Some(v) => env_put(a0, "GOOGLE_GEMINI_BASE_URL"@, v),
                None => a0,
            };
            let a2 = match vmap_get(b, "GEMINI_API_KEY"@) {
                Some(v) => env_put(a1, "GEMINI_API_KEY"@, v),
                None => a1,
            };
            env_views(r.entries@) == (match vmap_get(b, "GEMINI_MODEL"@) {
                Some(v) => env_put(a2, "GEMINI_MODEL"@, v),
                None => a2,
            })
        }),
{
    let mut active = active;
    match backup.get("GOOGLE_GEMINI_BASE_URL") {
        Some(v) => {
            let vv = v.clone();
            active.set("GOOGLE_GEMINI_BASE_URL".to_owned(), vv);
        },
        None => {},
    }
    match backup.get("GEMINI_API_KEY") {
        Some(v) => {
            let vv = v.clone();
            active.set("GEMINI_API_KEY".to_owned(), vv);
        },
        None => {},
    }
    match backup.get("GEMINI_MODEL") {
        Some(v) => {
            let vv = v.clone();
            active.set("GEMINI_MODEL".to_owned(), vv);
        },
        None => {},
    }
    active
}

/// The backup snapshot written beside a fresh configuration: exactly the
/// three managed assignments.
pub fn gemini_backup_env(api_key: &str, base_url: &str) -> (r: String)
    ensures
        r@ == "GOOGLE_GEMINI_BASE_URL="@ + base_url@ + "\nGEMINI_API_KEY="@ + api_key@
            + "\nGEMINI_MODEL=gemini-2.5-pro\n"@,
{
    let mut s = "GOOGLE_GEMINI_BASE_URL=".to_owned();
    s.append(base_url);
    s.append("\nGEMINI_API_KEY=");
    s.append(api_key);
    s.append("\nGEMINI_MODEL=gemini-2.5-pro\n");
    s
}

} // verus!
