//! The caller-facing operation surface: an explicit route table and the
//! request, response and error types of each operation.
//!
//! The table lists every route with its method, path and whether the
//! gateway must have authenticated the caller; a generic dispatcher outside
//! this crate pairs each entry's operation tag with its handler.

pub mod admin;
pub mod chat;
pub mod levels;
pub mod prompt;
pub mod validate;

use vstd::prelude::*;
use vstd::string::StringExecFns;

verus! {

/// HTTP method of a route.
#[derive(Clone, Copy, Debug, PartialEq, Eq, Structural)]
pub enum HttpMethod {
    Get,
    Post,
    Put,
    Patch,
    Delete,
}

/// The operation behind a route; the dispatcher maps each tag to its
/// handler.
#[derive(Clone, Copy, Debug, PartialEq, Eq, Structural)]
pub enum Operation {
    Ping,
    PingAuthorized,
    GetLevels,
    ChatSession,
    AdminGetLevels,
    AdminCreateLevel,
    AdminModifyLevel,
    AdminDeleteLevel,
    AdminGetComponents,
    AdminAddComponent,
    AdminModifyComponent,
    AdminDeleteComponent,
    AdminMoveComponent,
}

/// One route: where it listens, whether the gateway must have verified the
/// caller first, and which operation serves it.
pub struct RouteEntry {
    pub method: HttpMethod,
    pub path: String,
    pub requires_auth: bool,
    pub operation: Operation,
}

/// Whether a table entry is exactly the given route.
pub open spec fn entry_is(
    e: RouteEntry,
    method: HttpMethod,
    path: Seq<char>,
    requires_auth: bool,
    operation: Operation,
) -> bool {
    e.method == method && e.path@ == path && e.requires_auth == requires_auth && e.operation
        == operation
}

/// The complete route table, in declaration order. Path segments in braces
/// are captured parameters.
pub fn route_table() -> (r: Vec<RouteEntry>)
    ensures
        r@.len() == 13,
        entry_is(r@[0], HttpMethod::Get, "/ping/"@, false, Operation::Ping),
        entry_is(r@[1], HttpMethod::Post, "/ping/"@, true, Operation::PingAuthorized),
        entry_is(r@[2], HttpMethod::Get, "/levels/"@, true, Operation::GetLevels),
        entry_is(
            r@[3],
            HttpMethod::Post,
            "/levels/{level_id}/chat/{session_id}/"@,
            true,
            Operation::ChatSession,
        ),
        entry_is(r@[4], HttpMethod::Get, "/admin/levels/"@, true, Operation::AdminGetLevels),
        entry_is(r@[5], HttpMethod::Post, "/admin/levels/"@, true, Operation::AdminCreateLevel),
        entry_is(
            r@[6],
            HttpMethod::Patch,
            "/admin/levels/{level_id}/"@,
            true,
            Operation::AdminModifyLevel,
        ),
        entry_is(
            r@[7],
            HttpMethod::Delete,
            "/admin/levels/{level_id}/"@,
            true,
            Operation::AdminDeleteLevel,
        ),
        entry_is(
            r@[8],
            HttpMethod::Get,
            "/admin/prompt/components/"@,
            true,
            Operation::AdminGetComponents,
        ),
        entry_is(
            r@[9],
            HttpMethod::Post,
            "/admin/prompt/components/"@,
            true,
            Operation::AdminAddComponent,
        ),
        entry_is(
            r@[10],
            HttpMethod::Put,
            "/admin/prompt/components/{component_id}/"@,
            true,
            Operation::AdminModifyComponent,
        ),
        entry_is(
            r@[11],
            HttpMethod::Delete,
            "/admin/prompt/components/{component_id}/"@,
            true,
            Operation::AdminDeleteComponent,
        ),
        entry_is(
            r@[12],
            HttpMethod::Put,
            "/admin/prompt/components/{component_id}/position/"@,
            true,
            Operation::AdminMoveComponent,
        ),
{
    let mut r: Vec<RouteEntry> = Vec::new();
    r.push(
        RouteEntry {
            method: HttpMethod::Get,
            path: String::from_str("/ping/"),
            requires_auth: false,
            operation: Operation::Ping,
        },
    );
    r.push(
        RouteEntry {
            method: HttpMethod::Post,
            path: String::from_str("/ping/"),
            requires_auth: true,
            operation: Operation::PingAuthorized,
        },
    );
    r.push(
        RouteEntry {
            method: HttpMethod::Get,
            path: String::from_str("/levels/"),
            requires_auth: true,
            operation: Operation::GetLevels,
        },
    );
    r.push(
        RouteEntry {
            method: HttpMethod::Post,
            path: String::from_str("/levels/{level_id}/chat/{session_id}/"),
            requires_auth: true,
            operation: Operation::ChatSession,
        },
    );
    r.push(
        RouteEntry {
            method: HttpMethod::Get,
            path: String::from_str("/admin/levels/"),
            requires_auth: true,
            operation: Operation::AdminGetLevels,
        },
    );
    r.push(
        RouteEntry {
            method: HttpMethod::Post,
            path: String::from_str("/admin/levels/"),
            requires_auth: true,
            operation: Operation::AdminCreateLevel,
        },
    );
    r.push(
        RouteEntry {
            method: HttpMethod::Patch,
            path: String::from_str("/admin/levels/{level_id}/"),
            requires_auth: true,
            operation: Operation::AdminModifyLevel,
        },
    );
    r.push(
        RouteEntry {
            method: HttpMethod::Delete,
            path: String::from_str("/admin/levels/{level_id}/"),
            requires_auth: true,
            operation: Operation::AdminDeleteLevel,
        },
    );
    r.push(
        RouteEntry {
            method: HttpMethod::Get,
            path: String::from_str("/admin/prompt/components/"),
            requires_auth: true,
            operation: Operation::AdminGetComponents,
        },
    );
    r.push(
        RouteEntry {
            method: HttpMethod::Post,
            path: String::from_str("/admin/prompt/components/"),
            requires_auth: true,
            operation: Operation::AdminAddComponent,
        },
    );
    r.push(
        RouteEntry {
            method: HttpMethod::Put,
            path: String::from_str("/admin/prompt/components/{component_id}/"),
            requires_auth: true,
            operation: Operation::AdminModifyComponent,
        },
    );
    r.push(
        RouteEntry {
            method: HttpMethod::Delete,
            path: String::from_str("/admin/prompt/components/{component_id}/"),
            requires_auth: true,
            operation: Operation::AdminDeleteComponent,
        },
    );
    r.push(
        RouteEntry {
            method: HttpMethod::Put,
            path: String::from_str("/admin/prompt/components/{component_id}/position/"),
            requires_auth: true,
            operation: Operation::AdminMoveComponent,
        },
    );
    r
}

} // verus!
