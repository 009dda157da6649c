//! MCP servers between the unified specification and Kimi Code's
//! `mcp.json`: stdio servers carry `command`/`args`/`env`/`cwd`, HTTP servers
//! carry `url` (with `transport: "sse"` for legacy SSE).
use vstd::prelude::*;
use crate::error::AppError;
use crate::json::{
    clone_json, jview, jview_entries, lemma_jview_entries, obj_get, obj_insert, vget, vinsert,
    vobj, vstr, JsonValue, JsonView, ObjView,
};
use crate::text::{str_eq, to_string};

verus! {

/// `res` with key `k` copied from `o` when present there.
pub open spec fn copy_key(res: ObjView, o: ObjView, k: Seq<char>) -> ObjView {
    match vget(o, k) {
        Some(v) => vinsert(res, k, v),
        None => res,
    }
}

/// `res` with key `k` copied from `o` when it holds a non-empty object.
pub open spec fn copy_nonempty_object(res: ObjView, o: ObjView, k: Seq<char>) -> ObjView {
    match vget(o, k) {
        Some(JsonView::Object(m)) => if m.len() > 0 {
            vinsert(res, k, JsonView::Object(m))
        } else {
            res
        },
        _ => res,
    }
}

/// The optional fields kept in either direction.
pub open spec fn copy_optional_fields(res: ObjView, o: ObjView) -> ObjView {
    let r1 = copy_key(res, o, "enabled"@);
    let r2 = copy_key(r1, o, "startupTimeoutMs"@);
    let r3 = copy_key(r2, o, "toolTimeoutMs"@);
    let r4 = copy_key(r3, o, "enabledTools"@);
    let r5 = copy_key(r4, o, "disabledTools"@);
    copy_key(r5, o, "bearerTokenEnvVar"@)
}

/// The `mcp.json` entry of a unified specification object, by its `type`
/// (`stdio` when absent); nothing for an unknown type.
pub open spec fn spec_to_kimicode(o: ObjView) -> Option<ObjView> {
    let typ = match vstr(vget(o, "type"@)) {
        Some(t) => t,
        None => "stdio"@,
    };
    let e: ObjView = seq![];
    if typ == "stdio"@ {
        let r1 = copy_key(e, o, "command"@);
        let r2 = copy_key(r1, o, "args"@);
        let r3 = copy_nonempty_object(r2, o, "env"@);
        let r4 = copy_key(r3, o, "cwd"@);
        Some(copy_optional_fields(r4, o))
    } else if typ == "http"@ {
        let r1 = copy_key(e, o, "url"@);
        let r2 = copy_nonempty_object(r1, o, "headers"@);
        Some(copy_optional_fields(r2, o))
    } else if typ == "sse"@ {
        let r1 = copy_key(e, o, "url"@);
        let r2 = vinsert(r1, "transport"@, JsonView::Str("sse"@));
        let r3 = copy_nonempty_object(r2, o, "headers"@);
        Some(copy_optional_fields(r3, o))
    } else {
        None
    }
}

fn copy_key_exec(res: &mut Vec<(String, JsonValue)>, o: &Vec<(String, JsonValue)>, k: &str)
    ensures
        jview_entries(final(res)@) == copy_key(jview_entries(old(res)@), jview_entries(o@), k@),
{
    match obj_get(o, k) {
        Some(v) => obj_insert(res, to_string(k), clone_json(v)),
        None => {},
    }
}

fn copy_nonempty_object_exec(res: &mut Vec<(String, JsonValue)>, o: &Vec<(String, JsonValue)>, k: &str)
    ensures
        jview_entries(final(res)@) == copy_nonempty_object(
            jview_entries(old(res)@),
            jview_entries(o@),
            k@,
        ),
{
    match obj_get(o, k) {
        Some(v) => match v {
            JsonValue::Object(m) => {
                proof {
                    lemma_jview_entries(m@);
                }
                if m.len() > 0 {
                    obj_insert(res, to_string(k), clone_json(v));
                }
            },
            _ => {},
        },
        None => {},
    }
}

fn copy_optional_fields_exec(res: &mut Vec<(String, JsonValue)>, o: &Vec<(String, JsonValue)>)
    ensures
        jview_entries(final(res)@) == copy_optional_fields(
            jview_entries(old(res)@),
            jview_entries(o@),
        ),
{
    copy_key_exec(res, o, "enabled");
    copy_key_exec(res, o, "startupTimeoutMs");
    copy_key_exec(res, o, "toolTimeoutMs");
    copy_key_exec(res, o, "enabledTools");
    copy_key_exec(res, o, "disabledTools");
    copy_key_exec(res, o, "bearerTokenEnvVar");
}

/// Converts a unified MCP specification to a Kimi Code `mcp.json` entry;
/// refused when the specification is not an object or its type unknown.
pub fn convert_to_kimicode(spec: &JsonValue) -> (r: Result<JsonValue, AppError>)
    ensures
        match r {
            Ok(v) => jview(*spec) is Object && spec_to_kimicode(vobj(jview(*spec))) == Some(
                vobj(jview(v)),
            ) && jview(v) is Object,
            Err(e) => e is McpValidation && (!(jview(*spec) is Object) || spec_to_kimicode(
                vobj(jview(*spec)),
            ) is None),
        },
{
    let o = match spec.as_object() {
        Some(o) => o,
        None => {
            return Err(AppError::McpValidation(to_string("MCP spec must be a JSON object")));
        },
    };
    let typ: String = match obj_get(o, "type") {
        Some(v) => match v.as_str() {
            Some(t) => t.clone(),
            None => to_string("stdio"),
        },
        None => to_string("stdio"),
    };
    let mut res: Vec<(String, JsonValue)> = Vec::new();
    proof {
        lemma_jview_entries(res@);
    }
    if str_eq(typ.as_str(), "stdio") {
        copy_key_exec(&mut res, o, "command");
        copy_key_exec(&mut res, o, "args");
        copy_nonempty_object_exec(&mut res, o, "env");
        copy_key_exec(&mut res, o, "cwd");
    } else if str_eq(typ.as_str(), "http") {
        copy_key_exec(&mut res, o, "url");
        copy_nonempty_object_exec(&mut res, o, "headers");
    } else if str_eq(typ.as_str(), "sse") {
        copy_key_exec(&mut res, o, "url");
        obj_insert(&mut res, to_string("transport"), JsonValue::Str(to_string("sse")));
        copy_nonempty_object_exec(&mut res, o, "headers");
    } else {
        return Err(AppError::McpValidation(to_string("Unknown MCP type for Kimi Code")));
    }
    copy_optional_fields_exec(&mut res, o);
    Ok(JsonValue::Object(res))
}

/// The unified specification of a Kimi Code entry: stdio when it has a
/// `command`, HTTP (or SSE with `transport: "sse"`) when it has a `url`;
/// nothing otherwise.
pub open spec fn spec_from_kimicode(o: ObjView) -> Option<ObjView> {
    let e: ObjView = seq![];
    if vget(o, "command"@) is Some {
        let r0 = vinsert(e, "type"@, JsonView::Str("stdio"@));
        let r1 = copy_key(r0, o, "command"@);
        let r2 = copy_key(r1, o, "args"@);
        let r3 = copy_key(r2, o, "env"@);
        Some(copy_key(r3, o, "cwd"@))
    } else if vget(o, "url"@) is Some {
        let transport = match vstr(vget(o, "transport"@)) {
            Some(t) => t,
            None => "http"@,
        };
        let r0 = vinsert(
            e,
            "type"@,
            JsonView::Str(
                if transport == "sse"@ {
                    "sse"@
                } else {
                    "http"@
                },
            ),
        );
        let r1 = copy_key(r0, o, "url"@);
        Some(copy_key(r1, o, "headers"@))
    } else {
        None
    }
}

/// Converts a Kimi Code `mcp.json` entry to a unified specification;
/// refused when it is not an object or has neither `command` nor `url`.
pub fn convert_from_kimicode(spec: &JsonValue) -> (r: Result<JsonValue, AppError>)
    ensures
        match r {
            Ok(v) => jview(*spec) is Object && spec_from_kimicode(vobj(jview(*spec))) == Some(
                vobj(jview(v)),
            ) && jview(v) is Object,
            Err(e) => e is McpValidation && (!(jview(*spec) is Object) || spec_from_kimicode(
                vobj(jview(*spec)),
            ) is None),
        },
{
    let o = match spec.as_object() {
        Some(o) => o,
        None => {
            return Err(
                AppError::McpValidation(to_string("Kimi Code MCP spec must be a JSON object")),
            );
        },
    };
    let mut res: Vec<(String, JsonValue)> = Vec::new();
    proof {
        lemma_jview_entries(res@);
    }
    if obj_get(o, "command").is_some() {
        obj_insert(&mut res, to_string("type"), JsonValue::Str(to_string("stdio")));
        copy_key_exec(&mut res, o, "command");
        copy_key_exec(&mut res, o, "args");
        copy_key_exec(&mut res, o, "env");
        copy_key_exec(&mut res, o, "cwd");
    } else if obj_get(o, "url").is_some() {
        let sse = match obj_get(o, "transport") {
            Some(t) => match t.as_str() {
                Some(s) => str_eq(s.as_str(), "sse"),
                None => false,
            },
            None => false,
        };
        proof {
            reveal_strlit("sse");
            reveal_strlit("http");
        }
        let typ = if sse {
            to_string("sse")
        } else {
            to_string("http")
        };
        obj_insert(&mut res, to_string("type"), JsonValue::Str(typ));
        copy_key_exec(&mut res, o, "url");
        copy_key_exec(&mut res, o, "headers");
    } else {
        return Err(
            AppError::McpValidation(to_string("Kimi Code MCP entry must have 'command' or 'url'")),
        );
    }
    Ok(JsonValue::Object(res))
}

/// Which applications use an MCP server.
#[derive(Debug)]
pub struct McpApps {
    pub kimicode: bool,
}

/// An MCP server of the unified store.
#[derive(Debug)]
pub struct McpServer {
    pub id: String,
    pub name: String,
    pub server: JsonValue,
    pub apps: McpApps,
}

/// Writes server `id`, converted, into Kimi Code's servers, when Kimi Code
/// is installed (`installed`: its home directory exists). Returns whether
/// the servers are to be written back; when Kimi Code is not installed
/// nothing changes and nothing is written.
pub fn sync_single_server_to_kimicode(
    servers: &mut Vec<(String, JsonValue)>,
    id: &str,
    server_spec: &JsonValue,
    installed: bool,
) -> (r: Result<bool, AppError>)
    ensures
        !installed ==> (r matches Ok(false) && final(servers)@ == old(servers)@),
        installed ==> match spec_to_kimicode(vobj(jview(*server_spec))) {
            Some(o) => if jview(*server_spec) is Object {
                r matches Ok(true) && jview_entries(final(servers)@) == vinsert(
                    jview_entries(old(servers)@),
                    id@,
                    JsonView::Object(o),
                )
            } else {
                r is Err && final(servers)@ == old(servers)@
            },
            None => r is Err && final(servers)@ == old(servers)@,
        },
{
    if !installed {
        return Ok(false);
    }
    let converted = convert_to_kimicode(server_spec)?;
    crate::kimi_config::set_mcp_server(servers, id, converted);
    Ok(true)
}

/// Removes server `id` from Kimi Code's servers when Kimi Code is
/// installed; returns whether the servers are to be written back.
pub fn remove_server_from_kimicode(servers: &mut Vec<(String, JsonValue)>, id: &str, installed: bool) -> (r:
    bool)
    ensures
        r == installed,
        jview_entries(final(servers)@) == if installed {
            crate::json::vremove(jview_entries(old(servers)@), id@)
        } else {
            jview_entries(old(servers)@)
        },
{
    if installed {
        crate::kimi_config::remove_mcp_server(servers, id);
    }
    installed
}

pub struct McpServerView {
    pub id: Seq<char>,
    pub name: Seq<char>,
    pub server: JsonView,
    pub kimicode: bool,
}

impl View for McpServer {
    type V = McpServerView;

    open spec fn view(&self) -> McpServerView {
        McpServerView {
            id: self.id@,
            name: self.name@,
            server: jview(self.server),
            kimicode: self.apps.kimicode,
        }
    }
}

pub type StoreView = Seq<(Seq<char>, McpServerView)>;

pub open spec fn store_view(s: Seq<(String, McpServer)>) -> StoreView {
    s.map_values(|p: (String, McpServer)| (p.0@, p.1@))
}

/// Index of the first server with id `id`, or -1.
pub open spec fn store_index(s: StoreView, id: Seq<char>) -> int
    decreases s.len(),
{
    if s.len() == 0 {
        -1
    } else if store_index(s.drop_last(), id) >= 0 {
        store_index(s.drop_last(), id)
    } else if s.last().0 == id {
        s.len() - 1
    } else {
        -1
    }
}

proof fn lemma_store_index(s: StoreView, id: Seq<char>)
    ensures
        -1 <= store_index(s, id) < s.len(),
        store_index(s, id) >= 0 ==> s[store_index(s, id)].0 == id,
        store_index(s, id) == -1 ==> forall|i: int| 0 <= i < s.len() ==> #[trigger] s[i].0 != id,
        forall|i: int| 0 <= i < store_index(s, id) ==> #[trigger] s[i].0 != id,
    decreases s.len(),
{
    if s.len() > 0 {
        lemma_store_index(s.drop_last(), id);
        assert forall|i: int| 0 <= i < s.len() - 1 implies #[trigger] s[i] == s.drop_last()[i] by {}
    }
}

/// The store and the count of added servers after importing `servers`
/// in turn.
pub open spec fn spec_import(store: StoreView, servers: ObjView) -> (StoreView, nat)
    decreases servers.len(),
{
    if servers.len() == 0 {
        (store, 0)
    } else {
        let (s, n) = spec_import(store, servers.drop_last());
        let (id, spec) = servers.last();
        if spec is Object && spec_from_kimicode(vobj(spec)) is Some {
            let i = store_index(s, id);
            if i >= 0 {
                let e = s[i];
                (s.update(i, (e.0, McpServerView { kimicode: true, ..e.1 })), n)
            } else {
                (
                    s.push(
                        (
                            id,
                            McpServerView {
                                id: id,
                                name: id,
                                server: JsonView::Object(spec_from_kimicode(vobj(spec)).unwrap()),
                                kimicode: true,
                            },
                        ),
                    ),
                    n + 1,
                )
            }
        } else {
            (s, n)
        }
    }
}

fn find_server(store: &Vec<(String, McpServer)>, id: &str) -> (r: Option<usize>)
    ensures
        match r {
            Some(i) => i < store.len() && store_index(store_view(store@), id@) == i as int,
            None => store_index(store_view(store@), id@) == -1,
        },
{
    let ghost sv = store_view(store@);
    proof {
        lemma_store_index(sv, id@);
    }
    let mut k: usize = 0;
    while k < store.len()
        invariant
            0 <= k <= store.len(),
            sv == store_view(store@),
            sv.len() == store.len(),
            forall|i: int| 0 <= i < k ==> #[trigger] sv[i].0 != id@,
            -1 <= store_index(sv, id@) < sv.len(),
            store_index(sv, id@) >= 0 ==> sv[store_index(sv, id@)].0 == id@,
            store_index(sv, id@) == -1 ==> forall|i: int| 0 <= i < sv.len() ==> #[trigger] sv[i].0 != id@,
            forall|i: int| 0 <= i < store_index(sv, id@) ==> #[trigger] sv[i].0 != id@,
        decreases store.len() - k,
    {
        if str_eq(store[k].0.as_str(), id) {
            assert(sv[k as int].0 == id@);
            return Some(k);
        }
        assert(sv[k as int].0 != id@);
        k = k + 1;
    }
    None
}

/// Imports Kimi Code's servers into the unified store: a server already in
/// the store gets the Kimi Code flag, a new convertible one is added with
/// only that flag, an unconvertible one is skipped. Returns how many were
/// added.
pub fn import_from_kimicode(
    store: &mut Vec<(String, McpServer)>,
    servers: &Vec<(String, JsonValue)>,
) -> (count: usize)
    requires
        old(store)@.len() + servers@.len() <= usize::MAX,
    ensures
        (store_view(final(store)@), count as nat) == spec_import(
            store_view(old(store)@),
            jview_entries(servers@),
        ),
{
    let ghost s0 = store_view(store@);
    let ghost sv = jview_entries(servers@);
    proof {
        lemma_jview_entries(servers@);
    }
    let mut count: usize = 0;
    let mut j: usize = 0;
    while j < servers.len()
        invariant
            0 <= j <= servers.len(),
            sv == jview_entries(servers@),
            sv.len() == servers.len(),
            forall|m: int| 0 <= m < servers.len() ==> #[trigger] sv[m] == (servers@[m].0@, jview(servers@[m].1)),
            (store_view(store@), count as nat) == spec_import(s0, sv.subrange(0, j as int)),
            count <= j,
            store@.len() <= s0.len() + j,
            s0.len() + servers@.len() <= usize::MAX,
        decreases servers.len() - j,
    {
        proof {
            let t = sv.subrange(0, j + 1);
            assert(t.drop_last() =~= sv.subrange(0, j as int));
            assert(t.last() == sv[j as int]);
        }
        let ghost before = store_view(store@);
        let id = &servers[j].0;
        match convert_from_kimicode(&servers[j].1) {
            Ok(unified) => {
                match find_server(store, id.as_str()) {
                    Some(k) => {
                        let e = &store[k];
                        let updated = (
                            e.0.clone(),
                            McpServer {
                                id: e.1.id.clone(),
                                name: e.1.name.clone(),
                                server: clone_json(&e.1.server),
                                apps: McpApps { kimicode: true },
                            },
                        );
                        store.set(k, updated);
                        proof {
                            assert(store_view(store@) =~= before.update(
                                k as int,
                                (before[k as int].0, McpServerView { kimicode: true, ..before[k as int].1 }),
                            ));
                        }
                    },
                    None => {
                        store.push(
                            (
                                id.clone(),
                                McpServer {
                                    id: id.clone(),
                                    name: id.clone(),
                                    server: unified,
                                    apps: McpApps { kimicode: true },
                                },
                            ),
                        );
                        count = count + 1;
                        proof {
                            assert(store_view(store@) =~= before.push(store_view(store@).last()));
                        }
                    },
                }
            },
            Err(_) => {},
        }
        j = j + 1;
    }
    assert(sv.subrange(0, servers.len() as int) =~= sv);
    count
}

} // verus!
