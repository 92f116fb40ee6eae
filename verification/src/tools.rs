//! The decisions around the supported CLI tools: install status reports,
//! update commands, package names, key masking, token selection, and the
//! billing-API helpers that can be computed locally.

use vstd::prelude::*;
use crate::text::contains_seq;
use crate::text::str_concat;
use crate::text::str_contains;
use crate::text::str_eq;
use vstd::string::StrSliceExecFns;
use vstd::string::StringExecFns;

verus! {

// ---------------------------------------------------------------------------
// Masking
// ---------------------------------------------------------------------------

/// `key` masked for display: four stars for a short key, else its first and
/// last four characters around an ellipsis.
pub open spec fn spec_mask(key: Seq<char>) -> Seq<char> {
    if key.len() <= 8 {
        "****"@
    } else {
        key.take(4) + "..."@ + key.skip(key.len() - 4)
    }
}

/// Masks an API key for display.
pub fn mask_api_key(key: &str) -> (r: String)
    ensures
        r@ == spec_mask(key@),
{
    let n = key.unicode_len();
    if n <= 8 {
        "****".to_owned()
    } else {
        let mut s = key.substring_char(0, 4).to_owned();
        s.append("...");
        s.append(key.substring_char(n - 4, n));
        proof {
            assert(key@.subrange(0, 4) =~= key@.take(4));
            assert(key@.subrange(n - 4, n as int) =~= key@.skip(n - 4));
        }
        s
    }
}

// ---------------------------------------------------------------------------
// Tool catalog
// ---------------------------------------------------------------------------

/// One tool's install status, as the status command reports it.
pub struct ToolStatus {
    pub id: String,
    pub name: String,
    pub installed: bool,
    pub version: Option<String>,
}

/// The installation report: one entry per supported tool, marked installed
/// exactly when its version probe produced output, carrying that output.
pub fn tool_statuses(
    cc_cli: Option<String>,
    codex: Option<String>,
    gemini: Option<String>,
) -> (r: Vec<ToolStatus>)
    ensures
        r@.len() == 3,
        r@[0].id@ == "cc-cli"@ && r@[0].name@ == "CC CLI"@,
        r@[0].installed == (cc_cli is Some) && r@[0].version == cc_cli,
        r@[1].id@ == "codex"@ && r@[1].name@ == "CodeX"@,
        r@[1].installed == (codex is Some) && r@[1].version == codex,
        r@[2].id@ == "gemini-cli"@ && r@[2].name@ == "Gemini CLI"@,
        r@[2].installed == (gemini is Some) && r@[2].version == gemini,
{
    let mut out: Vec<ToolStatus> = Vec::new();
    let ci = match &cc_cli {
        Some(_) => true,
        None => false,
    };
    let xi = match &codex {
        Some(_) => true,
        None => false,
    };
    let gi = match &gemini {
        Some(_) => true,
        None => false,
    };
    out.push(
        ToolStatus {
            id: "cc-cli".to_owned(),
            name: "CC CLI".to_owned(),
            installed: ci,
            version: cc_cli,
        },
    );
    out.push(
        ToolStatus {
            id: "codex".to_owned(),
            name: "CodeX".to_owned(),
            installed: xi,
            version: codex,
        },
    );
    out.push(
        ToolStatus {
            id: "gemini-cli".to_owned(),
            name: "Gemini CLI".to_owned(),
            installed: gi,
            version: gemini,
        },
    );
    out
}

/// The npm package that ships each supported tool.
pub open spec fn spec_npm_package(tool: Seq<char>) -> Option<Seq<char>> {
    if tool == "cc-cli"@ {
        Some("@cc-ai/cc-cli"@)
    } else if tool == "codex"@ {
        Some("@openai/codex"@)
    } else if tool == "gemini-cli"@ {
        Some("@google/gemini-cli"@)
    } else {
        None
    }
}

/// The npm package name for a tool, or nothing for an unknown tool.
pub fn npm_package_for_tool(tool: &str) -> (r: Option<&'static str>)
    ensures
        match r {
            Some(p) => spec_npm_package(tool@) == Some(p@),
            None => spec_npm_package(tool@) is None,
        },
{
    proof {
        reveal_strlit("cc-cli");
        reveal_strlit("codex");
        reveal_strlit("gemini-cli");
        assert("cc-cli"@.len() == 6);
        assert("codex"@.len() == 5);
        assert("gemini-cli"@.len() == 10);
    }
    if str_eq(tool, "cc-cli") {
        Some("@cc-ai/cc-cli")
    } else if str_eq(tool, "codex") {
        Some("@openai/codex")
    } else if str_eq(tool, "gemini-cli") {
        Some("@google/gemini-cli")
    } else {
        None
    }
}

/// The success message reported after an installation.
pub fn install_success_message(tool: &str, method: &str) -> (r: String)
    ensures
        r@ == tool@ + " installed successfully via "@ + method@,
{
    let mut s = tool.to_owned();
    s.append(" installed successfully via ");
    s.append(method);
    s
}

// ---------------------------------------------------------------------------
// Update commands
// ---------------------------------------------------------------------------

/// A command the shell runs to update a tool.
pub struct UpdateCommand {
    pub program: String,
    pub args: Vec<String>,
}

/// A resolved executable path that means a Homebrew installation.
pub open spec fn spec_is_brew_path(p: Seq<char>) -> bool {
    contains_seq(p, "/opt/homebrew/"@) || contains_seq(p, "/usr/local/"@)
}

/// The view of an `UpdateCommand` as a program name and argument views.
pub open spec fn cmd_views(c: UpdateCommand) -> (Seq<char>, Seq<Seq<char>>) {
    (c.program@, Seq::new(c.args@.len(), |i: int| c.args@[i]@))
}

/// The update command for a tool. The two npm-shipped tools update through
/// npm; codex updates through Homebrew when the resolved path of its binary
/// (passed in when the platform can resolve it) lies under a Homebrew
/// prefix, and through npm otherwise. Unknown tools get nothing.
pub fn update_command(tool: &str, codex_path: Option<&String>) -> (r: Option<UpdateCommand>)
    ensures
        tool@ == "cc-cli"@ ==> (r matches Some(c) && cmd_views(c) == (
            "npm"@,
            seq!["install"@, "-g"@, "@cc-ai/cc-cli@latest"@],
        )),
        tool@ == "gemini-cli"@ ==> (r matches Some(c) && cmd_views(c) == (
            "npm"@,
            seq!["install"@, "-g"@, "@google/gemini-cli@latest"@],
        )),
        tool@ == "codex"@ ==> (r matches Some(c) && (match codex_path {
            Some(p) => {
                if spec_is_brew_path(p@) {
                    cmd_views(c) == ("brew"@, seq!["upgrade"@, "codex"@])
                } else {
                    cmd_views(c) == ("npm"@, seq!["install"@, "-g"@, "@openai/codex@latest"@])
                }
            },
            None => cmd_views(c) == ("npm"@, seq!["install"@, "-g"@, "@openai/codex@latest"@]),
        })),
        (tool@ != "cc-cli"@ && tool@ != "codex"@ && tool@ != "gemini-cli"@) ==> r is None,
{
    proof {
        reveal_strlit("cc-cli");
        reveal_strlit("codex");
        reveal_strlit("gemini-cli");
        assert("cc-cli"@.len() == 6);
        assert("codex"@.len() == 5);
        assert("gemini-cli"@.len() == 10);
    }
    if str_eq(tool, "cc-cli") {
        let mut args: Vec<String> = Vec::new();
        args.push("install".to_owned());
        args.push("-g".to_owned());
        args.push("@cc-ai/cc-cli@latest".to_owned());
        let c = UpdateCommand { program: "npm".to_owned(), args };
        proof {
            assert(cmd_views(c).1 =~= seq!["install"@, "-g"@, "@cc-ai/cc-cli@latest"@]);
        }
        Some(c)
    } else if str_eq(tool, "gemini-cli") {
        let mut args: Vec<String> = Vec::new();
        args.push("install".to_owned());
        args.push("-g".to_owned());
        args.push("@google/gemini-cli@latest".to_owned());
        let c = UpdateCommand { program: "npm".to_owned(), args };
        proof {
            assert(cmd_views(c).1 =~= seq!["install"@, "-g"@, "@google/gemini-cli@latest"@]);
        }
        Some(c)
    } else if str_eq(tool, "codex") {
        let brew = match codex_path {
            Some(p) => str_contains(p.as_str(), "/opt/homebrew/") || str_contains(
                p.as_str(),
                "/usr/local/",
            ),
            None => false,
        };
        if brew {
            let mut args: Vec<String> = Vec::new();
            args.push("upgrade".to_owned());
            args.push("codex".to_owned());
            let c = UpdateCommand { program: "brew".to_owned(), args };
            proof {
                assert(cmd_views(c).1 =~= seq!["upgrade"@, "codex"@]);
            }
            Some(c)
        } else {
            let mut args: Vec<String> = Vec::new();
            args.push("install".to_owned());
            args.push("-g".to_owned());
            args.push("@openai/codex@latest".to_owned());
            let c = UpdateCommand { program: "npm".to_owned(), args };
            proof {
                assert(cmd_views(c).1 =~= seq!["install"@, "-g"@, "@openai/codex@latest"@]);
            }
            Some(c)
        }
    } else {
        None
    }
}

// ---------------------------------------------------------------------------
// Billing-API helpers
// ---------------------------------------------------------------------------

/// The token name and group requested for each tool when a key is created.
pub fn token_request_meta(tool: &str) -> (r: Option<(String, String)>)
    ensures
        tool@ == "cc-cli"@ ==> (r matches Some(p) && p.0@ == "CC CLI一键创建"@ && p.1@
            == "CC CLI专用"@),
        tool@ == "codex"@ ==> (r matches Some(p) && p.0@ == "CodeX一键创建"@ && p.1@
            == "CodeX专用"@),
        tool@ == "gemini-cli"@ ==> (r matches Some(p) && p.0@ == "Gemini CLI一键创建"@ && p.1@
            == "Gemini CLI专用"@),
        (tool@ != "cc-cli"@ && tool@ != "codex"@ && tool@ != "gemini-cli"@) ==> r is None,
{
    proof {
        reveal_strlit("cc-cli");
        reveal_strlit("codex");
        reveal_strlit("gemini-cli");
        assert("cc-cli"@.len() == 6);
        assert("codex"@.len() == 5);
        assert("gemini-cli"@.len() == 10);
    }
    if str_eq(tool, "cc-cli") {
        Some(("CC CLI一键创建".to_owned(), "CC CLI专用".to_owned()))
    } else if str_eq(tool, "codex") {
        Some(("CodeX一键创建".to_owned(), "CodeX专用".to_owned()))
    } else if str_eq(tool, "gemini-cli") {
        Some(("Gemini CLI一键创建".to_owned(), "Gemini CLI专用".to_owned()))
    } else {
        None
    }
}

/// One token as the billing API lists it.
pub struct TokenRecord {
    pub id: i64,
    pub key: String,
}

/// Position `i` holds the newest token: no id is larger, and every earlier
/// position is strictly smaller.
pub open spec fn is_first_max(s: Seq<TokenRecord>, i: int) -> bool {
    &&& 0 <= i < s.len()
    &&& forall|j: int| 0 <= j < s.len() ==> (#[trigger] s[j]).id <= s[i].id
    &&& forall|j: int| 0 <= j < i ==> (#[trigger] s[j]).id < s[i].id
}

/// The API key of the newest token in a listing — the highest id, the first
/// of equals — with the key prefix attached; nothing for an empty listing.
pub fn newest_token_key(tokens: &Vec<TokenRecord>) -> (r: Option<String>)
    ensures
        (r is None) <==> tokens@.len() == 0,
        r matches Some(k) ==> exists|i: int|
            #[trigger] is_first_max(tokens@, i) && k@ == "sk-"@ + tokens@[i].key@,
{
    let n = tokens.len();
    if n == 0 {
        return None;
    }
    let mut best: usize = 0;
    let mut i: usize = 1;
    while i < n
        invariant
            n == tokens@.len(),
            0 <= best < i <= n,
            forall|j: int| 0 <= j < i ==> (#[trigger] tokens@[j]).id <= tokens@[best as int].id,
            forall|j: int| 0 <= j < best ==> (#[trigger] tokens@[j]).id < tokens@[best as int].id,
        decreases n - i,
    {
        if tokens[i].id > tokens[best].id {
            best = i;
        }
        i += 1;
    }
    proof {
        assert(is_first_max(tokens@, best as int));
    }
    Some(str_concat("sk-", tokens[best].key.as_str()))
}

/// What the percent-encoder returns for a text.
pub uninterp spec fn url_encoded(s: Seq<char>) -> Seq<char>;

/// Relies on `urlencoding::encode`: percent-encodes every byte except ASCII
/// alphanumerics and `-` `_` `.` `~`; a function of the text alone.
#[verifier::external_body]
fn url_encode(s: &str) -> (r: String)
    ensures
        r@ == url_encoded(s@),
{
    urlencoding::encode(s).into_owned()
}

/// The token-search URL for a freshly created token name.
pub fn token_search_url(name: &str) -> (r: String)
    ensures
        r@ == "https://duckcoding.com/api/token/search?keyword="@ + url_encoded(name@),
{
    let mut s = "https://duckcoding.com/api/token/search?keyword=".to_owned();
    let encoded = url_encode(name);
    s.append(encoded.as_str());
    s
}

// ---------------------------------------------------------------------------
// Environment plumbing
// ---------------------------------------------------------------------------

/// The PATH handed to spawned CLI commands: the user's local bin
/// directories, the Homebrew and system directories, then the inherited
/// PATH.
pub fn extended_path(home: &str, inherited_path: &str) -> (r: String)
    ensures
        r@ == home@ + "/.local/bin:"@ + home@
            + "/.cc-cli/bin:/opt/homebrew/bin:/usr/local/bin:/usr/bin:/bin:/usr/sbin:/sbin:"@
            + inherited_path@,
{
    let mut s = home.to_owned();
    s.append("/.local/bin:");
    s.append(home);
    s.append("/.cc-cli/bin:/opt/homebrew/bin:/usr/local/bin:/usr/bin:/bin:/usr/sbin:/sbin:");
    s.append(inherited_path);
    s
}

/// The last-30-days usage window in Beijing time, from a Unix timestamp:
/// the window ends at the end of the current Beijing day and starts thirty
/// days earlier.
pub fn usage_window(now: i64) -> (r: (i64, i64))
    requires
        0 <= now <= 100_000_000_000,
    ensures
        r.1 == ((now + 28800) / 86400) * 86400 + 57600,
        r.0 == r.1 - 2592000,
{
    let n = now as u64;
    let day_end: u64 = (n + 28800) / 86400 * 86400 + 86400 - 28800;
    let end = day_end as i64;
    let start = end - 2592000;
    (start, end)
}

} // verus!
