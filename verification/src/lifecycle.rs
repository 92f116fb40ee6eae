//! The credential-swap lifecycle: flipping a tool's configuration document
//! between "direct" (real credentials inline) and "proxied" (local
//! credentials inline, real credentials cached in an external store).
//!
//! The unverified shell reads and writes the tool's configuration file and
//! the store; every decision about their contents is made and verified
//! here. Only the one supported tool class is accepted; any other tool
//! fails fast with `UnsupportedTool`.

use vstd::prelude::*;
use crate::doc::DocMap;
use crate::doc::FieldValue;
use crate::doc::doc_equiv;
use crate::doc::entry_equiv;
use crate::doc::has_key;
use crate::doc::leaf_equiv;
use crate::doc::lemma_entry_equiv_refl;
use crate::doc::lemma_leaf_equiv_refl;
use crate::doc::key_idx;
use crate::doc::lemma_key_idx;
use crate::doc::lemma_key_idx_is;
use crate::doc::map_get;
use crate::doc::seq_set;
use crate::doc::unique_keys;
use crate::errors::ProxyError;
use crate::text::spec_dec;
use crate::text::decimal_string;
use crate::text::str_eq;
use vstd::string::StringExecFns;

verus! {

/// A supported external CLI tool, by its identifier.
pub struct Tool {
    pub id: String,
}

/// The external store of the real credentials, masked from the tool while
/// proxying is active. A record exists exactly while the tool's
/// configuration points at the local proxy.
pub struct GlobalConfig {
    pub transparent_proxy_real_api_key: Option<String>,
    pub transparent_proxy_real_base_url: Option<String>,
}

/// The credential lifecycle operations.
pub struct TransparentProxyConfigService;

// ---------------------------------------------------------------------------
// Field names and the proxy's local URL
// ---------------------------------------------------------------------------

/// The API-key field inside the tool's `env` object.
pub open spec fn auth_token_key() -> Seq<char> {
    "AI_AUTH_TOKEN"@
}

/// The base-URL field inside the tool's `env` object.
pub open spec fn base_url_key() -> Seq<char> {
    "AI_BASE_URL"@
}

/// The name of the nested object holding both credential fields.
pub open spec fn env_key() -> Seq<char> {
    "env"@
}

/// The identifier of the one tool class the lifecycle supports.
pub open spec fn supported_tool() -> Seq<char> {
    "cc-cli"@
}

/// The local base URL the tool is pointed at while proxying is active.
pub open spec fn spec_local_proxy_url(port: u16) -> Seq<char> {
    "http://127.0.0.1:"@ + spec_dec(port as int)
}

/// Builds the local proxy base URL for `port`.
pub fn local_proxy_url(port: u16) -> (r: String)
    ensures
        r@ == spec_local_proxy_url(port),
{
    let mut s = "http://127.0.0.1:".to_owned();
    let digits = decimal_string(port as u32);
    s.append(digits.as_str());
    s
}

// ---------------------------------------------------------------------------
// Document well-formedness
// ---------------------------------------------------------------------------

/// A parsed settings document: unique field names, and a unique-keyed `env`
/// object when one exists. Documents parsed from JSON have this shape.
pub open spec fn entries_wf(s: Seq<(String, FieldValue)>) -> bool {
    &&& unique_keys(s)
    &&& match map_get(s, env_key()) {
        Some(FieldValue::Object(m)) => unique_keys(m.entries@),
        _ => true,
    }
}

/// The `env` field, when present, is an object.
pub open spec fn env_ok(s: Seq<(String, FieldValue)>) -> bool {
    match map_get(s, env_key()) {
        Some(v) => v is Object,
        None => true,
    }
}

// ---------------------------------------------------------------------------
// What writing the credentials does to a document
// ---------------------------------------------------------------------------

/// How an `env` object's entries change when the two credential fields are
/// written: every name keeps its place, the first field named
/// `AI_AUTH_TOKEN` becomes the text `auth_v` and the first named
/// `AI_BASE_URL` becomes the text `base_v`, every other value is
/// untouched, and a missing credential field is appended (key first, URL
/// second).
pub open spec fn env_credentials_written(
    env0: Seq<(String, FieldValue)>,
    env1: Seq<(String, FieldValue)>,
    auth_v: Seq<char>,
    base_v: Seq<char>,
) -> bool {
    let n0 = env0.len() as int;
    let has_a = has_key(env0, auth_token_key());
    let has_b = has_key(env0, base_url_key());
    &&& env1.len() == n0 + (if has_a {
        0int
    } else {
        1int
    }) + (if has_b {
        0int
    } else {
        1int
    })
    &&& forall|i: int| 0 <= i < n0 ==> (#[trigger] env1[i]).0@ == env0[i].0@
    &&& forall|i: int|
        0 <= i < n0 && env0[i].0@ == auth_token_key() ==> ((#[trigger] env1[i]).1 matches
        FieldValue::Text(s) && s@ == auth_v)
    &&& forall|i: int|
        0 <= i < n0 && env0[i].0@ == base_url_key() ==> ((#[trigger] env1[i]).1 matches
        FieldValue::Text(s) && s@ == base_v)
    &&& forall|i: int|
        0 <= i < n0 && env0[i].0@ != auth_token_key() && env0[i].0@ != base_url_key() ==> (
        #[trigger] env1[i]).1 == env0[i].1
    &&& (!has_a ==> env1[n0].0@ == auth_token_key() && (env1[n0].1 matches FieldValue::Text(s)
        && s@ == auth_v))
    &&& (!has_b ==> env1[env1.len() - 1].0@ == base_url_key() && (env1[env1.len() - 1].1 matches
        FieldValue::Text(s) && s@ == base_v))
}

/// How a whole settings document changes when the credentials are written:
/// every field keeps its place and value, except that the `env` object (in
/// place, or appended when the document had none) has its two credential
/// fields written as `env_credentials_written` says.
pub open spec fn settings_written(
    e0: Seq<(String, FieldValue)>,
    doc1: DocMap,
    auth_v: Seq<char>,
    base_v: Seq<char>,
) -> bool {
    let env0 = spec_env_entries(e0);
    let has_env = has_key(e0, env_key());
    let n0 = e0.len() as int;
    &&& doc1.entries@.len() == n0 + (if has_env {
        0int
    } else {
        1int
    })
    &&& forall|i: int| 0 <= i < n0 ==> (#[trigger] doc1.entries@[i]).0@ == e0[i].0@
    &&& forall|i: int|
        0 <= i < n0 && e0[i].0@ != env_key() ==> (#[trigger] doc1.entries@[i]).1 == e0[i].1
    &&& forall|i: int|
        0 <= i < n0 && e0[i].0@ == env_key() ==> ((#[trigger] doc1.entries@[i]).1 matches
        FieldValue::Object(m1) && env_credentials_written(env0, m1.entries@, auth_v, base_v))
    &&& (!has_env ==> doc1.entries@[n0].0@ == env_key() && (doc1.entries@[n0].1 matches
        FieldValue::Object(m1) && env_credentials_written(env0, m1.entries@, auth_v, base_v)))
}

/// The entries of the document's `env` object, or empty when the document
/// has no such object.
pub open spec fn spec_env_entries(e0: Seq<(String, FieldValue)>) -> Seq<(String, FieldValue)> {
    match map_get(e0, env_key()) {
        Some(FieldValue::Object(m)) => m.entries@,
        _ => Seq::empty(),
    }
}

// ---------------------------------------------------------------------------
// The document update
// ---------------------------------------------------------------------------

/// The two credential field names differ from each other and from `env`.
proof fn lemma_keys_distinct()
    ensures
        auth_token_key() != base_url_key(),
        auth_token_key() != env_key(),
        base_url_key() != env_key(),
{
    reveal_strlit("AI_AUTH_TOKEN");
    reveal_strlit("AI_BASE_URL");
    reveal_strlit("env");
    assert(auth_token_key().len() == 13);
    assert(base_url_key().len() == 11);
    assert(env_key().len() == 3);
}

/// In a unique-keyed list, any entry named `key` stands at the first
/// position named `key`.
proof fn lemma_unique_at<T>(s: Seq<(String, T)>, key: Seq<char>, i: int)
    requires
        unique_keys(s),
        0 <= i < s.len(),
        s[i].0@ == key,
    ensures
        key_idx(s, key) == i,
        map_get(s, key) == Some(s[i].1),
{
    lemma_key_idx(s, key);
    let k = key_idx(s, key);
    if k < i {
        assert(s[k].0@ != s[i].0@);
        assert(false);
    }
}

/// Setting the API-key field and then the base-URL field produces exactly
/// the relation `env_credentials_written`.
proof fn lemma_env_two_sets(
    env0: Seq<(String, FieldValue)>,
    ka: String,
    kb: String,
    sa: String,
    sb: String,
)
    requires
        unique_keys(env0),
        ka@ == auth_token_key(),
        kb@ == base_url_key(),
    ensures
        env_credentials_written(
            env0,
            seq_set(seq_set(env0, ka, FieldValue::Text(sa)), kb, FieldValue::Text(sb)),
            sa@,
            sb@,
        ),
{
    lemma_keys_distinct();
    lemma_key_idx(env0, auth_token_key());
    lemma_key_idx(env0, base_url_key());
    let e1 = seq_set(env0, ka, FieldValue::Text(sa));
    let n0 = env0.len() as int;
    let has_a = has_key(env0, auth_token_key());
    let has_b = has_key(env0, base_url_key());
    let ia = key_idx(env0, auth_token_key());
    let ib = key_idx(env0, base_url_key());

    // e1: env0 with the key field written (updated at ia, or appended).
    assert forall|i: int| 0 <= i < n0 implies (#[trigger] e1[i]).0@ == env0[i].0@ by {}

    // the first base-URL position is unchanged by the key write
    if has_b {
        assert(ia != ib);
        assert(e1[ib].0@ == base_url_key());
        assert forall|j: int| 0 <= j < ib implies !((#[trigger] e1[j]).0@ == base_url_key()) by {}
        lemma_key_idx_is(e1, base_url_key(), ib);
    } else {
        assert forall|j: int| 0 <= j < e1.len() implies !((#[trigger] e1[j]).0@
            == base_url_key()) by {
            if j < n0 {
                assert(env0[j].0@ != base_url_key());
            }
        }
        lemma_key_idx_is(e1, base_url_key(), e1.len() as int);
    }
    let e2 = seq_set(e1, kb, FieldValue::Text(sb));

    assert forall|i: int|
        0 <= i < n0 && env0[i].0@ == auth_token_key() implies ((#[trigger] e2[i]).1 matches
    FieldValue::Text(s) && s@ == sa@) by {
        lemma_unique_at(env0, auth_token_key(), i);
        assert(e1[i].1 == FieldValue::Text(sa));
    }
    assert forall|i: int|
        0 <= i < n0 && env0[i].0@ == base_url_key() implies ((#[trigger] e2[i]).1 matches
    FieldValue::Text(s) && s@ == sb@) by {
        lemma_unique_at(env0, base_url_key(), i);
        assert(e2[i].1 == FieldValue::Text(sb));
    }
    assert forall|i: int|
        0 <= i < n0 && env0[i].0@ != auth_token_key() && env0[i].0@ != base_url_key() implies (
    #[trigger] e2[i]).1 == env0[i].1 by {}
    if !has_a {
        assert(e1[n0] == (ka, FieldValue::Text(sa)));
        assert(e2[n0].1 == FieldValue::Text(sa));
    }
    if !has_b {
        assert(e2[e2.len() - 1] == (kb, FieldValue::Text(sb)));
    }
}

impl DocMap {
    /// Writes the two credential fields into the document's `env` object,
    /// in place, creating the object when the document has none. Everything
    /// else in the document keeps its place and value.
    #[verifier::loop_isolation(false)]
    pub fn write_env_credentials(self, api_key: &str, base_url: &str) -> (r: DocMap)
        requires
            entries_wf(self.entries@),
            env_ok(self.entries@),
        ensures
            settings_written(self.entries@, r, api_key@, base_url@),
    {
        let ghost e0 = self.entries@;
        let mut doc = self;
        let n = doc.entries.len();
        let mut i: usize = 0;
        while i < n
            invariant
                n == doc.entries@.len(),
                doc.entries@ == e0,
                entries_wf(e0),
                env_ok(e0),
                0 <= i <= n,
                forall|j: int| 0 <= j < i ==> (#[trigger] e0[j]).0@ != env_key(),
            decreases n - i,
        {
            if str_eq(doc.entries[i].0.as_str(), "env") {
                proof {
                    lemma_key_idx_is(e0, env_key(), i as int);
                }
                let (k_env, v_env) = doc.entries.remove(i);
                let mut m = match v_env {
                    FieldValue::Object(m) => m,
                    _ => {
                        proof {
                            assert(false);
                        }
                        DocMap::new()
                    },
                };
                let ghost m0 = m.entries@;
                proof {
                    assert(spec_env_entries(e0) == m0);
                }
                let ka = "AI_AUTH_TOKEN".to_owned();
                let kb = "AI_BASE_URL".to_owned();
                let sa = api_key.to_owned();
                let sb = base_url.to_owned();
                m.set(ka, FieldValue::Text(sa));
                m.set(kb, FieldValue::Text(sb));
                proof {
                    lemma_env_two_sets(m0, ka, kb, sa, sb);
                }
                doc.entries.insert(i, (k_env, FieldValue::Object(m)));
                proof {
                    let ie = i as int;
                    let p = doc.entries@[ie];
                    assert(doc.entries@ =~= e0.update(ie, p));
                    assert(p.0 == e0[ie].0);
                    assert(p.1 matches FieldValue::Object(m1) && env_credentials_written(
                        m0,
                        m1.entries@,
                        api_key@,
                        base_url@,
                    ));
                    assert forall|j: int| 0 <= j < e0.len() && (#[trigger] e0[j]).0@ == env_key()
                        implies j == ie by {
                        lemma_unique_at(e0, env_key(), j);
                    }
                    assert forall|j: int| 0 <= j < e0.len() implies (#[trigger] doc.entries@[j]).0@
                        == e0[j].0@ by {}
                    assert forall|j: int| 0 <= j < e0.len() && e0[j].0@ != env_key() implies (
                    #[trigger] doc.entries@[j]).1 == e0[j].1 by {}
                    assert(settings_written(e0, doc, api_key@, base_url@));
                }
                return doc;
            }
            i += 1;
        }
        proof {
            lemma_key_idx_is(e0, env_key(), n as int);
        }
        let mut m = DocMap::new();
        let ghost m0 = m.entries@;
        let ka = "AI_AUTH_TOKEN".to_owned();
        let kb = "AI_BASE_URL".to_owned();
        let sa = api_key.to_owned();
        let sb = base_url.to_owned();
        m.set(ka, FieldValue::Text(sa));
        m.set(kb, FieldValue::Text(sb));
        proof {
            lemma_env_two_sets(m0, ka, kb, sa, sb);
        }
        doc.set("env".to_owned(), FieldValue::Object(m));
        proof {
            assert(spec_env_entries(e0) =~= m0);
        }
        doc
    }
}

// ---------------------------------------------------------------------------
// The lifecycle operations
// ---------------------------------------------------------------------------

/// The full effect of `enable_transparent_proxy`: every failing input, its
/// error, and that failures leave the store untouched; on success, the real
/// credentials land in the store and the document is rewritten to point at
/// the local proxy.
pub open spec fn enable_post(
    tool: Tool,
    settings0: Option<DocMap>,
    store0: GlobalConfig,
    store1: GlobalConfig,
    r: Result<DocMap, ProxyError>,
    port: u16,
    local_key: Seq<char>,
) -> bool {
    if tool.id@ != supported_tool() {
        r == Err::<DocMap, ProxyError>(ProxyError::UnsupportedTool) && store1 == store0
    } else {
        match settings0 {
            None => r == Err::<DocMap, ProxyError>(ProxyError::ConfigMissing) && store1 == store0,
            Some(doc) => match map_get(doc.entries@, env_key()) {
                Some(FieldValue::Object(m)) => match (
                    map_get(m.entries@, auth_token_key()),
                    map_get(m.entries@, base_url_key()),
                ) {
                    (Some(FieldValue::Text(k)), Some(FieldValue::Text(u))) => {
                        &&& store1.transparent_proxy_real_api_key == Some(k)
                        &&& store1.transparent_proxy_real_base_url == Some(u)
                        &&& (r matches Ok(doc1) && settings_written(
                            doc.entries@,
                            doc1,
                            local_key,
                            spec_local_proxy_url(port),
                        ))
                    },
                    _ => r == Err::<DocMap, ProxyError>(ProxyError::FieldMissing) && store1
                        == store0,
                },
                _ => r == Err::<DocMap, ProxyError>(ProxyError::FieldMissing) && store1 == store0,
            },
        }
    }
}

/// The full effect of `disable_transparent_proxy`: refused for an
/// unsupported tool; `NoSavedCredentials` when the store lacks a record
/// (which disable never erases); otherwise the document — or a fresh one
/// when the tool had no file — gets the real credentials written back.
pub open spec fn disable_post(
    tool: Tool,
    settings0: Option<DocMap>,
    store: GlobalConfig,
    r: Result<DocMap, ProxyError>,
) -> bool {
    if tool.id@ != supported_tool() {
        r == Err::<DocMap, ProxyError>(ProxyError::UnsupportedTool)
    } else {
        match (store.transparent_proxy_real_api_key, store.transparent_proxy_real_base_url) {
            (Some(k), Some(u)) => (r matches Ok(doc1) && settings_written(
                match settings0 {
                    Some(d) => d.entries@,
                    None => Seq::empty(),
                },
                doc1,
                k@,
                u@,
            )),
            _ => r == Err::<DocMap, ProxyError>(ProxyError::NoSavedCredentials),
        }
    }
}

/// A backup field: the top-level string named `key`, or, failing that, the
/// string named `key` inside the `env` object. Both historical layouts of a
/// backup snapshot are accepted.
pub open spec fn spec_backup_field(doc: DocMap, key: Seq<char>) -> Option<String> {
    match map_get(doc.entries@, key) {
        Some(FieldValue::Text(s)) => Some(s),
        _ => match map_get(doc.entries@, env_key()) {
            Some(FieldValue::Object(m)) => match map_get(m.entries@, key) {
                Some(FieldValue::Text(s)) => Some(s),
                _ => None,
            },
            _ => None,
        },
    }
}

impl TransparentProxyConfigService {
    /// Enables proxying for `tool`: reads the real credentials out of the
    /// tool's settings document, saves them in the store, and returns the
    /// document rewritten to present `local_proxy_key` and the local proxy
    /// URL. Fails with `UnsupportedTool` for any other tool,
    /// `ConfigMissing` when the tool has no settings file, and
    /// `FieldMissing` when the `env` object or either credential field is
    /// absent — never inventing credentials, and touching the store only on
    /// success. The store write precedes the file write; the shell must
    /// persist the store before writing the returned document.
    pub fn enable_transparent_proxy(
        tool: &Tool,
        settings: Option<DocMap>,
        global_config: &mut GlobalConfig,
        local_proxy_port: u16,
        local_proxy_key: &str,
    ) -> (r: Result<DocMap, ProxyError>)
        requires
            settings matches Some(d) ==> entries_wf(d.entries@),
        ensures
            enable_post(
                *tool,
                settings,
                *old(global_config),
                *final(global_config),
                r,
                local_proxy_port,
                local_proxy_key@,
            ),
    {
        if !str_eq(tool.id.as_str(), "cc-cli") {
            return Err(ProxyError::UnsupportedTool);
        }
        let doc = match settings {
            None => {
                return Err(ProxyError::ConfigMissing);
            },
            Some(d) => d,
        };
        let real_key: String;
        let real_url: String;
        match doc.get("env") {
            Some(FieldValue::Object(m)) => {
                match m.get_text("AI_AUTH_TOKEN") {
                    Some(s) => {
                        real_key = s.clone();
                    },
                    None => {
                        return Err(ProxyError::FieldMissing);
                    },
                }
                match m.get_text("AI_BASE_URL") {
                    Some(s) => {
                        real_url = s.clone();
                    },
                    None => {
                        return Err(ProxyError::FieldMissing);
                    },
                }
            },
            _ => {
                return Err(ProxyError::FieldMissing);
            },
        }
        global_config.transparent_proxy_real_api_key = Some(real_key);
        global_config.transparent_proxy_real_base_url = Some(real_url);
        let url = local_proxy_url(local_proxy_port);
        Ok(doc.write_env_credentials(local_proxy_key, url.as_str()))
    }

    /// Disables proxying for `tool`: writes the real credentials from the
    /// store back into the settings document (a fresh one when the tool has
    /// no file) and returns it. The record stays in the store, so repeated
    /// disables are safe. Fails with `NoSavedCredentials` when the store
    /// holds no record.
    pub fn disable_transparent_proxy(
        tool: &Tool,
        global_config: &GlobalConfig,
        settings: Option<DocMap>,
    ) -> (r: Result<DocMap, ProxyError>)
        requires
            settings matches Some(d) ==> entries_wf(d.entries@) && env_ok(d.entries@),
        ensures
            disable_post(*tool, settings, *global_config, r),
    {
        if !str_eq(tool.id.as_str(), "cc-cli") {
            return Err(ProxyError::UnsupportedTool);
        }
        let real_key = match &global_config.transparent_proxy_real_api_key {
            Some(k) => k.clone(),
            None => {
                return Err(ProxyError::NoSavedCredentials);
            },
        };
        let real_url = match &global_config.transparent_proxy_real_base_url {
            Some(u) => u.clone(),
            None => {
                return Err(ProxyError::NoSavedCredentials);
            },
        };
        let doc = match settings {
            Some(d) => d,
            None => DocMap::new(),
        };
        Ok(doc.write_env_credentials(real_key.as_str(), real_url.as_str()))
    }

    /// Replaces the cached real credentials in the store, touching nothing
    /// on disk. Used when the user switches credential profiles while
    /// proxying stays active.
    pub fn update_real_config(
        tool: &Tool,
        global_config: &mut GlobalConfig,
        new_api_key: &str,
        new_base_url: &str,
    ) -> (r: Result<(), ProxyError>)
        ensures
            tool.id@ != supported_tool() ==> r == Err::<(), ProxyError>(ProxyError::UnsupportedTool)
                && *final(global_config) == *old(global_config),
            tool.id@ == supported_tool() ==> r == Ok::<(), ProxyError>(())
                && (final(global_config).transparent_proxy_real_api_key matches Some(k) && k@
                == new_api_key@)
                && (final(global_config).transparent_proxy_real_base_url matches Some(u) && u@
                == new_base_url@),
    {
        if !str_eq(tool.id.as_str(), "cc-cli") {
            return Err(ProxyError::UnsupportedTool);
        }
        global_config.transparent_proxy_real_api_key = Some(new_api_key.to_owned());
        global_config.transparent_proxy_real_base_url = Some(new_base_url.to_owned());
        Ok(())
    }

    /// Reads the saved real credentials: exactly the stored pair, or
    /// `NoSavedCredentials` when either half is absent. A pure read.
    pub fn get_real_config(global_config: &GlobalConfig) -> (r: Result<
        (String, String),
        ProxyError,
    >)
        ensures
            match (
                global_config.transparent_proxy_real_api_key,
                global_config.transparent_proxy_real_base_url,
            ) {
                (Some(k), Some(u)) => r matches Ok(p) && p.0 == k && p.1 == u,
                _ => r == Err::<(String, String), ProxyError>(ProxyError::NoSavedCredentials),
            },
    {
        let api_key = match &global_config.transparent_proxy_real_api_key {
            Some(k) => k.clone(),
            None => {
                return Err(ProxyError::NoSavedCredentials);
            },
        };
        let base_url = match &global_config.transparent_proxy_real_base_url {
            Some(u) => u.clone(),
            None => {
                return Err(ProxyError::NoSavedCredentials);
            },
        };
        Ok((api_key, base_url))
    }

    /// Extracts the real credentials from a named backup snapshot of the
    /// tool's settings, accepting both the flat and the `env`-nested
    /// layout. Fails with `ConfigMissing` when the snapshot does not exist
    /// and `FieldMissing` when either field is in neither place.
    pub fn read_real_config_from_backup(tool: &Tool, backup: Option<&DocMap>) -> (r: Result<
        (String, String),
        ProxyError,
    >)
        ensures
            tool.id@ != supported_tool() ==> r == Err::<(String, String), ProxyError>(
                ProxyError::UnsupportedTool,
            ),
            tool.id@ == supported_tool() ==> match backup {
                None => r == Err::<(String, String), ProxyError>(ProxyError::ConfigMissing),
                Some(doc) => match (
                    spec_backup_field(*doc, auth_token_key()),
                    spec_backup_field(*doc, base_url_key()),
                ) {
                    (Some(k), Some(u)) => r matches Ok(p) && p.0 == k && p.1 == u,
                    _ => r == Err::<(String, String), ProxyError>(ProxyError::FieldMissing),
                },
            },
    {
        if !str_eq(tool.id.as_str(), "cc-cli") {
            return Err(ProxyError::UnsupportedTool);
        }
        let doc = match backup {
            None => {
                return Err(ProxyError::ConfigMissing);
            },
            Some(d) => d,
        };
        let api_key = match Self::backup_field(doc, "AI_AUTH_TOKEN") {
            Some(s) => s.clone(),
            None => {
                return Err(ProxyError::FieldMissing);
            },
        };
        let base_url = match Self::backup_field(doc, "AI_BASE_URL") {
            Some(s) => s.clone(),
            None => {
                return Err(ProxyError::FieldMissing);
            },
        };
        Ok((api_key, base_url))
    }

    /// Looks a backup field up, flat first, then inside `env`.
    fn backup_field<'a>(doc: &'a DocMap, key: &str) -> (r: Option<&'a String>)
        ensures
            match r {
                Some(s) => spec_backup_field(*doc, key@) == Some(*s),
                None => spec_backup_field(*doc, key@) is None,
            },
    {
        match doc.get_text(key) {
            Some(s) => Some(s),
            None => match doc.get("env") {
                Some(FieldValue::Object(m)) => m.get_text(key),
                _ => None,
            },
        }
    }
}

// ---------------------------------------------------------------------------
// Laws of the lifecycle
// ---------------------------------------------------------------------------

/// Locates the `env` object of a freshly written document: in place when the
/// source had one, appended at the end otherwise.
proof fn lemma_written_env(e0: Seq<(String, FieldValue)>, d1: DocMap, a: Seq<char>, b: Seq<char>)
    requires
        entries_wf(e0),
        env_ok(e0),
        settings_written(e0, d1, a, b),
    ensures
        ({
            let ie = if has_key(e0, env_key()) {
                key_idx(e0, env_key())
            } else {
                e0.len() as int
            };
            &&& key_idx(d1.entries@, env_key()) == ie
            &&& 0 <= ie < d1.entries@.len()
            &&& (map_get(d1.entries@, env_key()) matches Some(FieldValue::Object(m1))
                && env_credentials_written(spec_env_entries(e0), m1.entries@, a, b)
                && d1.entries@[ie].1 == FieldValue::Object(m1))
        }),
{
    lemma_keys_distinct();
    lemma_key_idx(e0, env_key());
    let n0 = e0.len() as int;
    if has_key(e0, env_key()) {
        let ie = key_idx(e0, env_key());
        assert(d1.entries@[ie].0@ == env_key());
        assert forall|j: int| 0 <= j < ie implies !((#[trigger] d1.entries@[j]).0@
            == env_key()) by {
            assert(e0[j].0@ != env_key());
        }
        lemma_key_idx_is(d1.entries@, env_key(), ie);
    } else {
        assert(d1.entries@[n0].0@ == env_key());
        assert forall|j: int| 0 <= j < n0 implies !((#[trigger] d1.entries@[j]).0@
            == env_key()) by {
            assert(e0[j].0@ != env_key());
        }
        lemma_key_idx_is(d1.entries@, env_key(), n0);
    }
}

/// Writing the credentials preserves well-formedness.
pub proof fn lemma_written_wf(e0: Seq<(String, FieldValue)>, d1: DocMap, a: Seq<char>, b: Seq<char>)
    requires
        entries_wf(e0),
        env_ok(e0),
        settings_written(e0, d1, a, b),
    ensures
        entries_wf(d1.entries@),
        env_ok(d1.entries@),
{
    lemma_keys_distinct();
    lemma_key_idx(e0, env_key());
    lemma_written_env(e0, d1, a, b);
    let env0 = spec_env_entries(e0);
    lemma_key_idx(env0, auth_token_key());
    lemma_key_idx(env0, base_url_key());
    let n0 = e0.len() as int;
    assert forall|i: int, j: int| 0 <= i < j < d1.entries@.len() implies (
    #[trigger] d1.entries@[i]).0@ != (#[trigger] d1.entries@[j]).0@ by {
        if j < n0 {
            assert(e0[i].0@ != e0[j].0@);
        } else {
            assert(e0[i].0@ != env_key());
        }
    }
    match map_get(d1.entries@, env_key()) {
        Some(FieldValue::Object(m1)) => {
            let e1 = m1.entries@;
            let nn0 = env0.len() as int;
            let has_a = has_key(env0, auth_token_key());
            let has_b = has_key(env0, base_url_key());
            assert(unique_keys(env0));
            assert forall|i: int, j: int| 0 <= i < j < e1.len() implies (#[trigger] e1[i]).0@ != (
            #[trigger] e1[j]).0@ by {
                if j < nn0 {
                    assert(env0[i].0@ != env0[j].0@);
                } else {
                    if !has_a && !has_b {
                        if j == nn0 {
                            assert(env0[i].0@ != auth_token_key());
                        } else {
                            if i < nn0 {
                                assert(env0[i].0@ != base_url_key());
                            }
                        }
                    } else if !has_a {
                        assert(env0[i].0@ != auth_token_key());
                    } else {
                        assert(env0[i].0@ != base_url_key());
                    }
                }
            }
        },
        _ => {
            assert(false);
        },
    }
}

/// After a write, the document's `env` object carries exactly the two
/// credentials written.
pub proof fn lemma_written_credentials(
    e0: Seq<(String, FieldValue)>,
    d1: DocMap,
    a: Seq<char>,
    b: Seq<char>,
)
    requires
        entries_wf(e0),
        env_ok(e0),
        settings_written(e0, d1, a, b),
    ensures
        map_get(d1.entries@, env_key()) matches Some(FieldValue::Object(m)) && (map_get(
            m.entries@,
            auth_token_key(),
        ) matches Some(FieldValue::Text(s)) && s@ == a) && (map_get(
            m.entries@,
            base_url_key(),
        ) matches Some(FieldValue::Text(t)) && t@ == b),
{
    lemma_keys_distinct();
    lemma_written_env(e0, d1, a, b);
    lemma_written_wf(e0, d1, a, b);
    let env0 = spec_env_entries(e0);
    lemma_key_idx(env0, auth_token_key());
    lemma_key_idx(env0, base_url_key());
    let nn0 = env0.len() as int;
    match map_get(d1.entries@, env_key()) {
        Some(FieldValue::Object(m1)) => {
            let e1 = m1.entries@;
            assert(unique_keys(e1));
            if has_key(env0, auth_token_key()) {
                let ja = key_idx(env0, auth_token_key());
                assert(e1[ja].0@ == auth_token_key());
                lemma_unique_at(e1, auth_token_key(), ja);
            } else {
                assert(e1[nn0].0@ == auth_token_key());
                lemma_unique_at(e1, auth_token_key(), nn0);
            }
            if has_key(env0, base_url_key()) {
                let jb = key_idx(env0, base_url_key());
                assert(e1[jb].0@ == base_url_key());
                lemma_unique_at(e1, base_url_key(), jb);
            } else {
                assert(e1[e1.len() - 1].0@ == base_url_key());
                lemma_unique_at(e1, base_url_key(), e1.len() - 1);
            }
        },
        _ => {
            assert(false);
        },
    }
}

/// One write settles the document's shape: a second write only replaces the
/// two credential texts, so two writes in a row equal the second alone.
pub proof fn lemma_written_compose(
    e0: Seq<(String, FieldValue)>,
    d1: DocMap,
    a1: Seq<char>,
    b1: Seq<char>,
    d2: DocMap,
    a2: Seq<char>,
    b2: Seq<char>,
)
    requires
        entries_wf(e0),
        env_ok(e0),
        settings_written(e0, d1, a1, b1),
        settings_written(d1.entries@, d2, a2, b2),
    ensures
        settings_written(e0, d2, a2, b2),
{
    lemma_keys_distinct();
    lemma_written_env(e0, d1, a1, b1);
    lemma_key_idx(e0, env_key());
    let e1 = d1.entries@;
    let env0 = spec_env_entries(e0);
    let n0 = e0.len() as int;
    match map_get(e1, env_key()) {
        Some(FieldValue::Object(m1)) => {
            assert(spec_env_entries(e1) == m1.entries@);
            lemma_ecw_compose(env0, m1.entries@, a1, b1);
            let ie = if has_key(e0, env_key()) {
                key_idx(e0, env_key())
            } else {
                n0
            };
            assert forall|i: int| 0 <= i < n0 && (#[trigger] e0[i]).0@ == env_key() implies i
                == ie by {
                lemma_unique_at(e0, env_key(), i);
            }
            assert forall|i: int|
                0 <= i < n0 && e0[i].0@ == env_key() implies ((#[trigger] d2.entries@[i]).1 matches
            FieldValue::Object(m2) && env_credentials_written(env0, m2.entries@, a2, b2)) by {
                assert(e1[i].0@ == env_key());
            }
            if !has_key(e0, env_key()) {
                assert(e1[n0].0@ == env_key());
            }
        },
        _ => {
            assert(false);
        },
    }
}

/// Composition at the `env` level: the clause needs that a second credential
/// write only replaces the two texts the first one put there.
proof fn lemma_ecw_compose(
    env0: Seq<(String, FieldValue)>,
    m1e: Seq<(String, FieldValue)>,
    a1: Seq<char>,
    b1: Seq<char>,
)
    requires
        unique_keys(env0),
        env_credentials_written(env0, m1e, a1, b1),
    ensures
        forall|m2e: Seq<(String, FieldValue)>, a2: Seq<char>, b2: Seq<char>|
            #[trigger] env_credentials_written(m1e, m2e, a2, b2) ==> env_credentials_written(
                env0,
                m2e,
                a2,
                b2,
            ),
{
    lemma_keys_distinct();
    lemma_key_idx(env0, auth_token_key());
    lemma_key_idx(env0, base_url_key());
    let nn0 = env0.len() as int;
    let has_a = has_key(env0, auth_token_key());
    let has_b = has_key(env0, base_url_key());
    // after the first write both credential fields exist, in known places
    if has_a {
        let ja = key_idx(env0, auth_token_key());
        assert(m1e[ja].0@ == auth_token_key());
        assert forall|j: int| 0 <= j < ja implies !((#[trigger] m1e[j]).0@
            == auth_token_key()) by {
            assert(env0[j].0@ != auth_token_key());
        }
        lemma_key_idx_is(m1e, auth_token_key(), ja);
    } else {
        assert(m1e[nn0].0@ == auth_token_key());
        assert forall|j: int| 0 <= j < nn0 implies !((#[trigger] m1e[j]).0@
            == auth_token_key()) by {
            assert(env0[j].0@ != auth_token_key());
        }
        lemma_key_idx_is(m1e, auth_token_key(), nn0);
    }
    if has_b {
        let jb = key_idx(env0, base_url_key());
        assert(m1e[jb].0@ == base_url_key());
        assert forall|j: int| 0 <= j < jb implies !((#[trigger] m1e[j]).0@ == base_url_key()) by {
            assert(env0[j].0@ != base_url_key());
        }
        lemma_key_idx_is(m1e, base_url_key(), jb);
    } else {
        assert(m1e[m1e.len() - 1].0@ == base_url_key());
        assert forall|j: int| 0 <= j < m1e.len() - 1 implies !((#[trigger] m1e[j]).0@
            == base_url_key()) by {
            if j < nn0 {
                assert(env0[j].0@ != base_url_key());
            }
        }
        lemma_key_idx_is(m1e, base_url_key(), m1e.len() - 1);
    }
    assert forall|m2e: Seq<(String, FieldValue)>, a2: Seq<char>, b2: Seq<char>|
        #[trigger] env_credentials_written(m1e, m2e, a2, b2) implies env_credentials_written(
        env0,
        m2e,
        a2,
        b2,
    ) by {
        assert(m2e.len() == m1e.len());
        if !has_a {
            assert(m2e[nn0].0@ == m1e[nn0].0@);
            assert(m1e[nn0].0@ == auth_token_key());
        }
        if !has_b {
            assert(m2e[m2e.len() - 1].0@ == m1e[m1e.len() - 1].0@);
        }
    }
}

/// Writing back the very credentials a document already holds yields an
/// equivalent document.
pub proof fn lemma_written_noop(d0: DocMap, d2: DocMap, kv: Seq<char>, uv: Seq<char>)
    requires
        entries_wf(d0.entries@),
        env_ok(d0.entries@),
        has_key(d0.entries@, env_key()),
        map_get(spec_env_entries(d0.entries@), auth_token_key()) matches Some(FieldValue::Text(s))
            && s@ == kv,
        map_get(spec_env_entries(d0.entries@), base_url_key()) matches Some(FieldValue::Text(t))
            && t@ == uv,
        settings_written(d0.entries@, d2, kv, uv),
    ensures
        doc_equiv(d2, d0),
{
    lemma_keys_distinct();
    let e0 = d0.entries@;
    lemma_written_env(e0, d2, kv, uv);
    let env0 = spec_env_entries(e0);
    lemma_key_idx(e0, env_key());
    lemma_key_idx(env0, auth_token_key());
    lemma_key_idx(env0, base_url_key());
    let ie = key_idx(e0, env_key());
    assert forall|i: int| 0 <= i < e0.len() implies entry_equiv(
        (#[trigger] d2.entries@[i]).1,
        e0[i].1,
    ) by {
        if e0[i].0@ == env_key() {
            lemma_unique_at(e0, env_key(), i);
            match map_get(d2.entries@, env_key()) {
                Some(FieldValue::Object(m2)) => {
                    let e2 = m2.entries@;
                    match e0[i].1 {
                        FieldValue::Object(m0) => {
                            assert(env0 == m0.entries@);
                            assert forall|j: int| 0 <= j < env0.len() implies leaf_equiv(
                                (#[trigger] e2[j]).1,
                                env0[j].1,
                            ) by {
                                if env0[j].0@ == auth_token_key() {
                                    lemma_unique_at(env0, auth_token_key(), j);
                                } else if env0[j].0@ == base_url_key() {
                                    lemma_unique_at(env0, base_url_key(), j);
                                } else {
                                    lemma_leaf_equiv_refl(env0[j].1);
                                }
                            }
                            assert(entry_equiv(FieldValue::Object(m2), FieldValue::Object(m0)));
                        },
                        _ => {
                            assert(false);
                        },
                    }
                },
                _ => {
                    assert(false);
                },
            }
        } else {
            assert(d2.entries@[i].1 == e0[i].1);
            lemma_entry_equiv_refl(e0[i].1);
        }
    }
}

/// Round trip: enabling and then disabling proxying restores the tool's
/// configuration document — the same fields in the same order with the same
/// contents, which is byte-equivalence modulo formatting once serialized —
/// for any valid credential pair the document held.
pub proof fn lemma_enable_disable_round_trip(
    tool: Tool,
    doc0: DocMap,
    store0: GlobalConfig,
    store1: GlobalConfig,
    doc1: DocMap,
    r2: Result<DocMap, ProxyError>,
    port: u16,
    local_key: Seq<char>,
)
    requires
        tool.id@ == supported_tool(),
        entries_wf(doc0.entries@),
        enable_post(tool, Some(doc0), store0, store1, Ok(doc1), port, local_key),
        disable_post(tool, Some(doc1), store1, r2),
    ensures
        r2 matches Ok(doc2) && doc_equiv(doc2, doc0),
{
    let e0 = doc0.entries@;
    match map_get(e0, env_key()) {
        Some(FieldValue::Object(m0)) => {
            match (map_get(m0.entries@, auth_token_key()), map_get(m0.entries@, base_url_key())) {
                (Some(FieldValue::Text(k)), Some(FieldValue::Text(u))) => {
                    assert(env_ok(e0));
                    let purl = spec_local_proxy_url(port);
                    lemma_written_wf(e0, doc1, local_key, purl);
                    match r2 {
                        Ok(doc2) => {
                            lemma_written_compose(e0, doc1, local_key, purl, doc2, k@, u@);
                            lemma_written_noop(doc0, doc2, k@, u@);
                        },
                        Err(_) => {
                            assert(false);
                        },
                    }
                },
                _ => {
                    assert(false);
                },
            }
        },
        _ => {
            assert(false);
        },
    }
}

/// Idempotence: with a record in the store, a second disable succeeds again
/// and leaves the document as the first disable wrote it; already after the
/// first, the document points at the real credentials.
pub proof fn lemma_disable_idempotent(
    tool: Tool,
    doc1: DocMap,
    store: GlobalConfig,
    doc2: DocMap,
    r3: Result<DocMap, ProxyError>,
)
    requires
        tool.id@ == supported_tool(),
        entries_wf(doc1.entries@),
        env_ok(doc1.entries@),
        disable_post(tool, Some(doc1), store, Ok(doc2)),
        disable_post(tool, Some(doc2), store, r3),
    ensures
        match (store.transparent_proxy_real_api_key, store.transparent_proxy_real_base_url) {
            (Some(k), Some(u)) => {
                &&& (map_get(doc2.entries@, env_key()) matches Some(FieldValue::Object(m))
                    && (map_get(m.entries@, auth_token_key()) matches Some(FieldValue::Text(s))
                    && s@ == k@) && (map_get(m.entries@, base_url_key()) matches Some(
                    FieldValue::Text(t),
                ) && t@ == u@))
                &&& (r3 matches Ok(doc3) && doc_equiv(doc3, doc2))
            },
            _ => false,
        },
{
    match (store.transparent_proxy_real_api_key, store.transparent_proxy_real_base_url) {
        (Some(k), Some(u)) => {
            let e1 = doc1.entries@;
            lemma_written_wf(e1, doc2, k@, u@);
            lemma_written_credentials(e1, doc2, k@, u@);
            match r3 {
                Ok(doc3) => {
                    lemma_key_idx(doc2.entries@, env_key());
                    lemma_written_noop(doc2, doc3, k@, u@);
                },
                Err(_) => {
                    assert(false);
                },
            }
        },
        _ => {
            assert(false);
        },
    }
}

} // verus!
