//! Who may call what: reading the user from the request headers and checking
//! the role an endpoint requires.
use vstd::prelude::*;
use crate::models::{User, UserRole};
use crate::store::{ApiError, ErrorKind, refused, refuse};
use crate::ids::{uuid_parsed, parse_id};
use crate::text::{str_equal, owned};

verus! {

/// The role named `s` in the role header.
pub open spec fn role_named(s: Seq<char>) -> Option<UserRole> {
    if s == "super_admin"@ {
        Some(UserRole::SuperAdmin)
    } else if s == "node_admin"@ {
        Some(UserRole::NodeAdmin)
    } else if s == "business_line_admin"@ {
        Some(UserRole::BusinessLineAdmin)
    } else {
        None
    }
}

/// The role named `s`, or `None` for any other text.
pub fn parse_role(s: &str) -> (r: Option<UserRole>)
    ensures
        r == role_named(s@),
{
    if str_equal(s, "super_admin") {
        Some(UserRole::SuperAdmin)
    } else if str_equal(s, "node_admin") {
        Some(UserRole::NodeAdmin)
    } else if str_equal(s, "business_line_admin") {
        Some(UserRole::BusinessLineAdmin)
    } else {
        None
    }
}

/// The rank of a role: a super administrator outranks a node administrator,
/// who outranks a business-line administrator.
pub open spec fn role_rank(r: UserRole) -> int {
    match r {
        UserRole::SuperAdmin => 2,
        UserRole::NodeAdmin => 1,
        UserRole::BusinessLineAdmin => 0,
    }
}

/// A user of role `role` may call an endpoint that requires `required`:
/// the role ranks at least as high as the one required.
pub open spec fn grants(required: UserRole, role: UserRole) -> bool {
    role_rank(role) >= role_rank(required)
}

/// Whether a user of role `role` may call an endpoint that requires `required`.
pub fn has_access(required: UserRole, role: UserRole) -> (r: bool)
    ensures
        r == grants(required, role),
{
    match (required, role) {
        (UserRole::SuperAdmin, UserRole::SuperAdmin) => true,
        (UserRole::NodeAdmin, UserRole::SuperAdmin) => true,
        (UserRole::NodeAdmin, UserRole::NodeAdmin) => true,
        (UserRole::BusinessLineAdmin, UserRole::SuperAdmin) => true,
        (UserRole::BusinessLineAdmin, UserRole::NodeAdmin) => true,
        (UserRole::BusinessLineAdmin, UserRole::BusinessLineAdmin) => true,
        _ => false,
    }
}

/// The roles form a hierarchy: every role may call what it requires
/// itself, a super administrator may call every endpoint, a business-line
/// administrator only those that require no more than its own role, and
/// access passes down: a role that may act as another may call whatever that
/// one may.
pub proof fn access_hierarchy(required: UserRole, middle: UserRole, role: UserRole)
    ensures
        grants(role, role),
        grants(required, UserRole::SuperAdmin),
        grants(required, UserRole::BusinessLineAdmin) <==> required == UserRole::BusinessLineAdmin,
        grants(required, middle) && grants(middle, role) ==> grants(required, role),
{
}

/// The mathematical value of a [`User`].
pub ghost struct UserView {
    pub id: u128,
    pub name: Seq<char>,
    pub role: UserRole,
    pub managed_nodes: Seq<u128>,
    pub managed_business_lines: Seq<Seq<char>>,
}

impl View for User {
    type V = UserView;

    open spec fn view(&self) -> UserView {
        UserView {
            id: self.id,
            name: self.name@,
            role: self.role,
            managed_nodes: self.managed_nodes@,
            managed_business_lines: crate::models::texts(self.managed_business_lines@),
        }
    }
}

/// The user the headers describe: the identifier read as a UUID (the nil
/// identifier, zero, when it does not read as one), the name or "anonymous",
/// the role, and no managed nodes or business lines.
pub open spec fn header_user(id: Seq<char>, name: Option<Seq<char>>, role: UserRole) -> UserView {
    UserView {
        id: match uuid_parsed(id) { Some(v) => v, None => 0 },
        name: match name { Some(n) => n, None => "anonymous"@ },
        role,
        managed_nodes: Seq::empty(),
        managed_business_lines: Seq::empty(),
    }
}

/// The user the headers describe (see `header_user`).
fn make_user(id: &str, name: Option<&str>, role: UserRole) -> (u: User)
    ensures
        u@ == header_user(id@, match name { Some(n) => Some(n@), None => None }, role),
{
    let uid = match parse_id(id) { Some(v) => v, None => 0 };
    let uname = match name { Some(n) => owned(n), None => owned("anonymous") };
    let u = User { id: uid, name: uname, role, managed_nodes: Vec::new(), managed_business_lines: Vec::new() };
    assert(u.managed_nodes@ =~= Seq::<u128>::empty());
    assert(crate::models::texts(u.managed_business_lines@) =~= Seq::<Seq<char>>::empty());
    u
}

/// The view of an optional text.
pub open spec fn opt_str(o: Option<&str>) -> Option<Seq<char>> {
    match o { Some(s) => Some(s@), None => None }
}

/// The user the headers describe: `None` when the identifier or the role
/// header is missing or unreadable, or when the role is unknown.
pub fn get_user_from_headers(id: Option<&str>, role: Option<&str>, name: Option<&str>) -> (r: Option<User>)
    ensures
        match (id, role) {
            (Some(i), Some(ro)) => match role_named(ro@) {
                Some(rl) => r matches Some(u) && u@ == header_user(i@, opt_str(name), rl),
                None => r is None,
            },
            _ => r is None,
        },
{
    let i = match id { Some(i) => i, None => return None };
    let ro = match role { Some(ro) => ro, None => return None };
    let rl = match parse_role(ro) { Some(rl) => rl, None => return None };
    Some(make_user(i, name, rl))
}

/// A guard that admits a request only if the user's role grants the role it
/// requires, when it requires one.
pub struct AuthMiddleware {
    required_role: Option<UserRole>,
}

impl AuthMiddleware {
    /// The role the guard requires, if any.
    pub closed spec fn role_required(&self) -> Option<UserRole> {
        self.required_role
    }

    /// A guard that requires `role`, or nothing.
    pub fn new(role: Option<UserRole>) -> (r: AuthMiddleware)
        ensures
            r.role_required() == role,
    {
        AuthMiddleware { required_role: role }
    }

    /// The guard wrapped around the service `service`.
    pub fn new_transform<S>(&self, service: S) -> (r: AuthMiddlewareService<S>)
        ensures
            r.role_required() == self.role_required(),
            r.inner() == service,
    {
        AuthMiddlewareService { service, required_role: self.required_role }
    }
}

/// The guard around a service: it reads the user from the headers of each
/// request before the service handles it.
pub struct AuthMiddlewareService<S> {
    service: S,
    required_role: Option<UserRole>,
}

/// The answer of the guard to headers `id`, `role` and `name` (each present
/// and readable, or `None`; an unreadable identifier or role reads as empty):
/// with both an identifier and a role, an unknown role is refused with
/// "Invalid role", a role that does not grant the required one with
/// "Insufficient permissions", and otherwise the request goes on with the
/// user they describe; without them it goes on with no user.
pub open spec fn guard_outcome(
    required: Option<UserRole>,
    id: Option<Seq<char>>,
    role: Option<Seq<char>>,
    name: Option<Seq<char>>,
    r: Result<Option<User>, ApiError>,
) -> bool {
    match (id, role) {
        (Some(i), Some(ro)) => match role_named(ro) {
            None => refused(r, ErrorKind::Unauthorized, "Invalid role"@),
            Some(rl) => if required matches Some(req) && !grants(req, rl) {
                refused(r, ErrorKind::Forbidden, "Insufficient permissions"@)
            } else {
                r matches Ok(Some(u)) && u@ == header_user(i, name, rl)
            },
        },
        _ => r matches Ok(None),
    }
}

impl<S> AuthMiddlewareService<S> {
    /// The role the guard requires, if any.
    pub closed spec fn role_required(&self) -> Option<UserRole> {
        self.required_role
    }

    /// The service the guard wraps.
    pub closed spec fn inner(&self) -> S {
        self.service
    }

    /// The service the guard wraps.
    pub fn service(&self) -> (s: &S)
        ensures
            *s == self.inner(),
    {
        &self.service
    }

    /// The guard's answer to the headers of a request (see `guard_outcome`).
    pub fn authorize(&self, id: Option<&str>, role: Option<&str>, name: Option<&str>) -> (r: Result<Option<User>, ApiError>)
        ensures
            guard_outcome(self.role_required(), opt_str(id), opt_str(role), opt_str(name), r),
    {
        match (id, role) {
            (Some(i), Some(ro)) => {
                let rl = match parse_role(ro) {
                    Some(rl) => rl,
                    None => return refuse(ErrorKind::Unauthorized, "Invalid role"),
                };
                if let Some(req) = self.required_role {
                    if !has_access(req, rl) {
                        return refuse(ErrorKind::Forbidden, "Insufficient permissions");
                    }
                }
                Ok(Some(make_user(i, name, rl)))
            },
            _ => Ok(None),
        }
    }
}

} // verus!
