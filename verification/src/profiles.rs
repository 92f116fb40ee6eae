//! Credential profiles: recognizing backup file names, reading the active
//! configuration out of a settings document, and switching the managed
//! credential fields of a document over to a saved profile.

use vstd::prelude::*;
use crate::doc::DocMap;
use crate::doc::FieldValue;
use crate::doc::lemma_key_idx_is;
use crate::doc::lemma_seq_remove_get;
use crate::doc::lemma_seq_set_get;
use crate::doc::map_get;
use crate::doc::seq_remove;
use crate::doc::seq_set;
use crate::lifecycle::env_ok;
use crate::text::skip_chars;
use crate::text::str_ends_with;
use crate::text::str_starts_with;
use crate::tools::mask_api_key;
use crate::tools::spec_mask;
use vstd::string::StrSliceExecFns;
use vstd::string::StringExecFns;

verus! {

// ---------------------------------------------------------------------------
// Backup file names
// ---------------------------------------------------------------------------

/// The profile name inside a backup file name: what stands between the
/// fixed prefix and suffix, when the name carries both around a middle.
pub open spec fn spec_profile_name(
    name: Seq<char>,
    prefix: Seq<char>,
    suffix: Seq<char>,
) -> Option<Seq<char>> {
    if prefix.is_prefix_of(name) && suffix.is_suffix_of(name.skip(prefix.len() as int)) {
        Some(name.subrange(prefix.len() as int, name.len() - suffix.len()))
    } else {
        None
    }
}

/// Recognizes a backup file name and extracts the profile name in it.
pub fn profile_from_filename(name: &str, prefix: &str, suffix: &str) -> (r: Option<String>)
    ensures
        match r {
            Some(p) => spec_profile_name(name@, prefix@, suffix@) == Some(p@),
            None => spec_profile_name(name@, prefix@, suffix@) is None,
        },
{
    if !str_starts_with(name, prefix) {
        return None;
    }
    let pn = prefix.unicode_len();
    let rem = skip_chars(name, pn);
    if !str_ends_with(rem.as_str(), suffix) {
        return None;
    }
    let rn = rem.as_str().unicode_len();
    let sn = suffix.unicode_len();
    let p = rem.as_str().substring_char(0, rn - sn).to_owned();
    proof {
        assert(rem@.subrange(0, rn - sn) =~= name@.subrange(
            prefix@.len() as int,
            name@.len() - suffix@.len(),
        ));
    }
    Some(p)
}

// ---------------------------------------------------------------------------
// Reading the active configuration
// ---------------------------------------------------------------------------

/// The displayed placeholder for a credential that is not configured.
pub open spec fn unset_marker() -> Seq<char> {
    "未配置"@
}

/// The active configuration as displayed: the masked API key and the base
/// URL out of the settings document's `env` object, with a placeholder for
/// anything absent.
pub fn settings_active_config(doc: &DocMap) -> (r: (String, String))
    ensures
        ({
            let env = match map_get(doc.entries@, "env"@) {
                Some(FieldValue::Object(m)) => m.entries@,
                _ => Seq::empty(),
            };
            &&& r.0@ == (match map_get(env, "AI_AUTH_TOKEN"@) {
                Some(FieldValue::Text(s)) => spec_mask(s@),
                _ => unset_marker(),
            })
            &&& r.1@ == (match map_get(env, "AI_BASE_URL"@) {
                Some(FieldValue::Text(s)) => s@,
                _ => unset_marker(),
            })
        }),
{
    match doc.get("env") {
        Some(FieldValue::Object(m)) => {
            let key = match m.get_text("AI_AUTH_TOKEN") {
                Some(s) => mask_api_key(s.as_str()),
                None => "未配置".to_owned(),
            };
            let url = match m.get_text("AI_BASE_URL") {
                Some(s) => s.clone(),
                None => "未配置".to_owned(),
            };
            (key, url)
        },
        _ => ("未配置".to_owned(), "未配置".to_owned()),
    }
}

/// The position of the first provider that is a table carrying a text
/// `base_url`, by that URL; providers without one are passed over.
pub open spec fn spec_first_provider_url(providers: Seq<(String, FieldValue)>) -> Option<Seq<char>>
    decreases providers.len(),
{
    if providers.len() == 0 {
        None
    } else {
        match providers[0].1 {
            FieldValue::Object(p) => match map_get(p.entries@, "base_url"@) {
                Some(FieldValue::Text(u)) => Some(u@),
                _ => spec_first_provider_url(providers.drop_first()),
            },
            _ => spec_first_provider_url(providers.drop_first()),
        }
    }
}

/// The base URL of the first model provider that declares one, out of a
/// parsed provider-table document.
#[verifier::loop_isolation(false)]
pub fn first_provider_base_url(config: &DocMap) -> (r: Option<String>)
    ensures
        match map_get(config.entries@, "model_providers"@) {
            Some(FieldValue::Object(t)) => match r {
                Some(u) => spec_first_provider_url(t.entries@) == Some(u@),
                None => spec_first_provider_url(t.entries@) is None,
            },
            _ => r is None,
        },
{
    let t = match config.get("model_providers") {
        Some(FieldValue::Object(t)) => t,
        _ => {
            return None;
        },
    };
    let n = t.entries.len();
    let mut i: usize = 0;
    proof {
        assert(t.entries@.skip(0) =~= t.entries@);
    }
    while i < n
        invariant
            0 <= i <= n,
            spec_first_provider_url(t.entries@.skip(i as int)) == spec_first_provider_url(
                t.entries@,
            ),
        decreases n - i,
    {
        proof {
            assert(t.entries@.skip(i as int).drop_first() =~= t.entries@.skip(i + 1));
            assert(t.entries@.skip(i as int)[0] == t.entries@[i as int]);
        }
        match &t.entries[i].1 {
            FieldValue::Object(p) => {
                match p.get_text("base_url") {
                    Some(u) => {
                        return Some(u.clone());
                    },
                    None => {},
                }
            },
            _ => {},
        }
        i += 1;
    }
    proof {
        assert(t.entries@.skip(n as int) =~= Seq::<(String, FieldValue)>::empty());
    }
    None
}

// ---------------------------------------------------------------------------
// Building a backup snapshot
// ---------------------------------------------------------------------------

/// The backup snapshot written beside a fresh configuration: one `env`
/// object holding exactly the two credentials.
pub fn credentials_backup_doc(api_key: &str, base_url: &str) -> (r: DocMap)
    ensures
        r.entries@.len() == 1,
        r.entries@[0].0@ == "env"@,
        r.entries@[0].1 matches FieldValue::Object(m) && {
            &&& m.entries@.len() == 2
            &&& m.entries@[0].0@ == "AI_AUTH_TOKEN"@
            &&& (m.entries@[0].1 matches FieldValue::Text(s) && s@ == api_key@)
            &&& m.entries@[1].0@ == "AI_BASE_URL"@
            &&& (m.entries@[1].1 matches FieldValue::Text(s) && s@ == base_url@)
        },
{
    proof {
        reveal_strlit("AI_AUTH_TOKEN");
        reveal_strlit("AI_BASE_URL");
        assert("AI_AUTH_TOKEN"@.len() == 13);
        assert("AI_BASE_URL"@.len() == 11);
    }
    let mut m = DocMap::new();
    m.set("AI_AUTH_TOKEN".to_owned(), FieldValue::Text(api_key.to_owned()));
    proof {
        assert(m.entries@.len() == 1);
        lemma_key_idx_is(m.entries@, "AI_BASE_URL"@, 1);
    }
    m.set("AI_BASE_URL".to_owned(), FieldValue::Text(base_url.to_owned()));
    proof {
        assert(m.entries@.len() == 2);
    }
    let mut doc = DocMap::new();
    doc.set("env".to_owned(), FieldValue::Object(m));
    doc
}

// ---------------------------------------------------------------------------
// Switching profiles
// ---------------------------------------------------------------------------

/// Switches the settings document to a saved profile: when the backup
/// carries an `env` object, its two credential fields overwrite the active
/// document's (inside an `env` object created when missing); every other
/// field, in the document and in its `env`, keeps its value.
pub fn merge_settings_profile(active: DocMap, backup: DocMap) -> (r: DocMap)
    requires
        env_ok(active.entries@),
    ensures
        ({
            match map_get(backup.entries@, "env"@) {
                None => r == active,
                Some(bv) => {
                    let av = match bv {
                        FieldValue::Object(be) => map_get(be.entries@, "AI_AUTH_TOKEN"@),
                        _ => None,
                    };
                    let uv = match bv {
                        FieldValue::Object(be) => map_get(be.entries@, "AI_BASE_URL"@),
                        _ => None,
                    };
                    let a_env = match map_get(active.entries@, "env"@) {
                        Some(FieldValue::Object(am)) => am.entries@,
                        _ => Seq::empty(),
                    };
                    &&& (forall|k2: Seq<char>|
                        k2 != "env"@ ==> #[trigger] map_get(r.entries@, k2) == map_get(
                            active.entries@,
                            k2,
                        ))
                    &&& (map_get(r.entries@, "env"@) matches Some(FieldValue::Object(m)) && {
                        &&& map_get(m.entries@, "AI_AUTH_TOKEN"@) == (match av {
                            Some(v) => Some(v),
                            None => map_get(a_env, "AI_AUTH_TOKEN"@),
                        })
                        &&& map_get(m.entries@, "AI_BASE_URL"@) == (match uv {
                            Some(v) => Some(v),
                            None => map_get(a_env, "AI_BASE_URL"@),
                        })
                        &&& (forall|k2: Seq<char>|
                            k2 != "AI_AUTH_TOKEN"@ && k2 != "AI_BASE_URL"@
                                ==> #[trigger] map_get(m.entries@, k2) == map_get(a_env, k2))
                    })
                },
            }
        }),
{
    proof {
        reveal_strlit("AI_AUTH_TOKEN");
        reveal_strlit("AI_BASE_URL");
        assert("AI_AUTH_TOKEN"@.len() == 13);
        assert("AI_BASE_URL"@.len() == 11);
    }
    let mut backup = backup;
    let bv = match backup.remove("env") {
        None => {
            return active;
        },
        Some(bv) => bv,
    };
    let (av, uv) = match bv {
        FieldValue::Object(mut be) => {
            let ghost be0 = be.entries@;
            let a = be.remove("AI_AUTH_TOKEN");
            proof {
                lemma_seq_remove_get(be0, "AI_AUTH_TOKEN"@, "AI_BASE_URL"@);
            }
            let u = be.remove("AI_BASE_URL");
            (a, u)
        },
        _ => (None, None),
    };
    let mut active = active;
    let ghost a0 = active.entries@;
    let m0 = active.remove("env");
    let mut m = match m0 {
        Some(FieldValue::Object(am)) => am,
        Some(_) => {
            proof {
                assert(false);
            }
            DocMap::new()
        },
        None => DocMap::new(),
    };
    let ghost me0 = m.entries@;
    match av {
        Some(v) => {
            let ghost before = m.entries@;
            let ka = "AI_AUTH_TOKEN".to_owned();
            m.set(ka, v);
            proof {
                assert forall|k2: Seq<char>| true implies #[trigger] map_get(m.entries@, k2) == (
                if k2 == "AI_AUTH_TOKEN"@ {
                    Some(v)
                } else {
                    map_get(before, k2)
                }) by {
                    lemma_seq_set_get(before, ka, v, k2);
                }
            }
        },
        None => {},
    }
    let ghost me1 = m.entries@;
    match uv {
        Some(v) => {
            let ghost before = m.entries@;
            let kb = "AI_BASE_URL".to_owned();
            m.set(kb, v);
            proof {
                assert forall|k2: Seq<char>| true implies #[trigger] map_get(m.entries@, k2) == (
                if k2 == "AI_BASE_URL"@ {
                    Some(v)
                } else {
                    map_get(before, k2)
                }) by {
                    lemma_seq_set_get(before, kb, v, k2);
                }
            }
        },
        None => {},
    }
    let ghost a1 = active.entries@;
    let ke = "env".to_owned();
    let mv = FieldValue::Object(m);
    active.set(ke, mv);
    proof {
        assert forall|k2: Seq<char>| k2 != "env"@ implies #[trigger] map_get(active.entries@, k2)
            == map_get(a0, k2) by {
            lemma_seq_set_get(a1, ke, mv, k2);
            lemma_seq_remove_get(a0, "env"@, k2);
        }
        lemma_seq_set_get(a1, ke, mv, "env"@);
    }
    active
}

/// Switches the auth file to a saved profile: the saved API-key field, when
/// the backup has one, overwrites the active file's; everything else keeps
/// its value.
pub fn merge_codex_auth(active: DocMap, backup: DocMap) -> (r: DocMap)
    ensures
        match map_get(backup.entries@, "OPENAI_API_KEY"@) {
            None => r == active,
            Some(v) => {
                &&& map_get(r.entries@, "OPENAI_API_KEY"@) == Some(v)
                &&& (forall|k2: Seq<char>|
                    k2 != "OPENAI_API_KEY"@ ==> #[trigger] map_get(r.entries@, k2) == map_get(
                        active.entries@,
                        k2,
                    ))
            },
        },
{
    let mut backup = backup;
    match backup.remove("OPENAI_API_KEY") {
        None => active,
        Some(v) => {
            let mut active = active;
            let ghost a0 = active.entries@;
            let k = "OPENAI_API_KEY".to_owned();
            active.set(k, v);
            proof {
                assert forall|k2: Seq<char>| true implies #[trigger] map_get(active.entries@, k2)
                    == (if k2 == "OPENAI_API_KEY"@ {
                    Some(v)
                } else {
                    map_get(a0, k2)
                }) by {
                    lemma_seq_set_get(a0, k, v, k2);
                }
            }
            active
        },
    }
}

/// `b`'s pairs written into `a`, left to right: existing names updated in
/// place, new names appended in `b`'s order.
pub open spec fn merge_entries(
    a: Seq<(String, FieldValue)>,
    b: Seq<(String, FieldValue)>,
) -> Seq<(String, FieldValue)>
    decreases b.len(),
{
    if b.len() == 0 {
        a
    } else {
        merge_entries(seq_set(a, b[0].0, b[0].1), b.drop_first())
    }
}

/// A field's value after a merge: the backup's when it has one, else the
/// active document's.
pub open spec fn merged_get(
    a: Seq<(String, FieldValue)>,
    b: Seq<(String, FieldValue)>,
    k: Seq<char>,
) -> Option<FieldValue> {
    match map_get(b, k) {
        Some(v) => Some(v),
        None => map_get(a, k),
    }
}

/// The top-level fields the profile switch manages.
pub open spec fn spec_codex_managed(k: Seq<char>) -> bool {
    ||| k == "model_provider"@
    ||| k == "model"@
    ||| k == "model_reasoning_effort"@
    ||| k == "network_access"@
    ||| k == "disable_response_storage"@
}

/// Copies one field of the backup over the active document, removing it
/// from the backup; without it, the active document is untouched.
fn copy_field(active: &mut DocMap, backup: &mut DocMap, key: &str)
    ensures
        final(backup).entries@ == seq_remove(old(backup).entries@, key@),
        map_get(final(active).entries@, key@) == merged_get(
            old(active).entries@,
            old(backup).entries@,
            key@,
        ),
        forall|k2: Seq<char>|
            k2 != key@ ==> #[trigger] map_get(final(active).entries@, k2) == map_get(
                old(active).entries@,
                k2,
            ),
{
    match backup.remove(key) {
        None => {},
        Some(v) => {
            let ghost a0 = active.entries@;
            let k = key.to_owned();
            active.set(k, v);
            proof {
                assert forall|k2: Seq<char>| true implies #[trigger] map_get(active.entries@, k2)
                    == (if k2 == key@ {
                    Some(v)
                } else {
                    map_get(a0, k2)
                }) by {
                    lemma_seq_set_get(a0, k, v, k2);
                }
            }
        },
    }
}

/// All six field names the codex merge distinguishes differ pairwise.
proof fn lemma_codex_keys_distinct()
    ensures
        "model_provider"@ != "model"@,
        "model_provider"@ != "model_reasoning_effort"@,
        "model_provider"@ != "network_access"@,
        "model_provider"@ != "disable_response_storage"@,
        "model_provider"@ != "model_providers"@,
        "model"@ != "model_reasoning_effort"@,
        "model"@ != "network_access"@,
        "model"@ != "disable_response_storage"@,
        "model"@ != "model_providers"@,
        "model_reasoning_effort"@ != "network_access"@,
        "model_reasoning_effort"@ != "disable_response_storage"@,
        "model_reasoning_effort"@ != "model_providers"@,
        "network_access"@ != "disable_response_storage"@,
        "network_access"@ != "model_providers"@,
        "disable_response_storage"@ != "model_providers"@,
{
    reveal_strlit("model_provider");
    reveal_strlit("model");
    reveal_strlit("model_reasoning_effort");
    reveal_strlit("network_access");
    reveal_strlit("disable_response_storage");
    reveal_strlit("model_providers");
    assert("model_provider"@.len() == 14);
    assert("model"@.len() == 5);
    assert("model_reasoning_effort"@.len() == 22);
    assert("network_access"@.len() == 14);
    assert("disable_response_storage"@.len() == 24);
    assert("model_providers"@.len() == 15);
    assert("model_provider"@[0] == 'm' && "network_access"@[0] == 'n');
}

/// Merges two provider tables: every provider of the backup overwrites or
/// extends the active table, in order.
fn merge_provider_tables(active: DocMap, backup: DocMap) -> (r: DocMap)
    ensures
        r.entries@ == merge_entries(active.entries@, backup.entries@),
{
    let mut a = active;
    let mut b = backup;
    while b.entries.len() > 0
        invariant
            merge_entries(a.entries@, b.entries@) == merge_entries(
                active.entries@,
                backup.entries@,
            ),
        decreases b.entries@.len(),
    {
        let ghost bb = b.entries@;
        let (k, v) = b.entries.remove(0);
        proof {
            assert(b.entries@ =~= bb.drop_first());
        }
        a.set(k, v);
    }
    a
}

/// Switches the main configuration document to a saved profile: each
/// managed top-level field of the backup overwrites the active one; when
/// the backup carries a provider table, the active document gets one (an
/// existing table is merged provider by provider, a missing one is
/// created, a non-table value stays as it is); every other field keeps its
/// value.
pub fn merge_codex_config(active: DocMap, backup: DocMap) -> (r: DocMap)
    ensures
        map_get(r.entries@, "model_provider"@) == merged_get(
            active.entries@,
            backup.entries@,
            "model_provider"@,
        ),
        map_get(r.entries@, "model"@) == merged_get(active.entries@, backup.entries@, "model"@),
        map_get(r.entries@, "model_reasoning_effort"@) == merged_get(
            active.entries@,
            backup.entries@,
            "model_reasoning_effort"@,
        ),
        map_get(r.entries@, "network_access"@) == merged_get(
            active.entries@,
            backup.entries@,
            "network_access"@,
        ),
        map_get(r.entries@, "disable_response_storage"@) == merged_get(
            active.entries@,
            backup.entries@,
            "disable_response_storage"@,
        ),
        forall|k2: Seq<char>|
            !spec_codex_managed(k2) && k2 != "model_providers"@ ==> #[trigger] map_get(
                r.entries@,
                k2,
            ) == map_get(active.entries@, k2),
        (match (
            map_get(backup.entries@, "model_providers"@),
            map_get(active.entries@, "model_providers"@),
        ) {
            (None, _) => map_get(r.entries@, "model_providers"@) == map_get(
                active.entries@,
                "model_providers"@,
            ),
            (Some(FieldValue::Object(bp)), Some(FieldValue::Object(ap))) => (map_get(
                r.entries@,
                "model_providers"@,
            ) matches Some(FieldValue::Object(rp)) && rp.entries@ == merge_entries(
                ap.entries@,
                bp.entries@,
            )),
            (Some(FieldValue::Object(bp)), None) => (map_get(
                r.entries@,
                "model_providers"@,
            ) matches Some(FieldValue::Object(rp)) && rp.entries@ == merge_entries(
                Seq::empty(),
                bp.entries@,
            )),
            (Some(FieldValue::Object(_)), Some(av)) => map_get(r.entries@, "model_providers"@)
                == Some(av),
            (Some(_), None) => (map_get(r.entries@, "model_providers"@) matches Some(
                FieldValue::Object(rp),
            ) && rp.entries@.len() == 0),
            (Some(_), Some(av)) => map_get(r.entries@, "model_providers"@) == Some(av),
        }),
{
    proof {
        lemma_codex_keys_distinct();
    }
    let mut active = active;
    let mut backup = backup;
    let ghost b0 = backup.entries@;
    copy_field(&mut active, &mut backup, "model_provider");
    let ghost b1 = backup.entries@;
    copy_field(&mut active, &mut backup, "model");
    let ghost b2 = backup.entries@;
    copy_field(&mut active, &mut backup, "model_reasoning_effort");
    let ghost b3 = backup.entries@;
    copy_field(&mut active, &mut backup, "network_access");
    let ghost b4 = backup.entries@;
    copy_field(&mut active, &mut backup, "disable_response_storage");
    let ghost a5 = active.entries@;
    proof {
        // each removal leaves the later lookups in the backup unchanged
        lemma_seq_remove_get(b0, "model_provider"@, "model"@);
        lemma_seq_remove_get(b0, "model_provider"@, "model_reasoning_effort"@);
        lemma_seq_remove_get(b0, "model_provider"@, "network_access"@);
        lemma_seq_remove_get(b0, "model_provider"@, "disable_response_storage"@);
        lemma_seq_remove_get(b0, "model_provider"@, "model_providers"@);
        lemma_seq_remove_get(b1, "model"@, "model_reasoning_effort"@);
        lemma_seq_remove_get(b1, "model"@, "network_access"@);
        lemma_seq_remove_get(b1, "model"@, "disable_response_storage"@);
        lemma_seq_remove_get(b1, "model"@, "model_providers"@);
        lemma_seq_remove_get(b2, "model_reasoning_effort"@, "network_access"@);
        lemma_seq_remove_get(b2, "model_reasoning_effort"@, "disable_response_storage"@);
        lemma_seq_remove_get(b2, "model_reasoning_effort"@, "model_providers"@);
        lemma_seq_remove_get(b3, "network_access"@, "disable_response_storage"@);
        lemma_seq_remove_get(b3, "network_access"@, "model_providers"@);
        lemma_seq_remove_get(b4, "disable_response_storage"@, "model_providers"@);
    }
    let bp_opt = backup.remove("model_providers");
    match bp_opt {
        None => active,
        Some(bv) => {
            let ghost a6 = active.entries@;
            let a_pv = active.remove("model_providers");
            let ghost a7 = active.entries@;
            proof {
                assert forall|k2: Seq<char>| k2 != "model_providers"@ implies #[trigger] map_get(
                    a7,
                    k2,
                ) == map_get(a6, k2) by {
                    lemma_seq_remove_get(a6, "model_providers"@, k2);
                }
            }
            let merged: FieldValue = match bv {
                FieldValue::Object(bp) => match a_pv {
                    Some(FieldValue::Object(ap)) => FieldValue::Object(
                        merge_provider_tables(ap, bp),
                    ),
                    Some(other) => other,
                    None => FieldValue::Object(merge_provider_tables(DocMap::new(), bp)),
                },
                _ => match a_pv {
                    Some(v) => v,
                    None => FieldValue::Object(DocMap::new()),
                },
            };
            let kp = "model_providers".to_owned();
            active.set(kp, merged);
            proof {
                assert forall|k2: Seq<char>| true implies #[trigger] map_get(active.entries@, k2)
                    == (if k2 == "model_providers"@ {
                    Some(merged)
                } else {
                    map_get(a7, k2)
                }) by {
                    lemma_seq_set_get(a7, kp, merged, k2);
                }
                assert(merge_entries(Seq::<(String, FieldValue)>::empty(), Seq::<(
                    String,
                    FieldValue,
                )>::empty()) =~= Seq::<(String, FieldValue)>::empty());
            }
            active
        },
    }
}

} // verus!
