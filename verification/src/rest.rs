use vstd::prelude::*;
use vstd::string::StringExecFns;
use crate::json::{
    JsonVal, JsonValue, jv, jv_pairs, lemma_jv_pairs_index, obj_get, str_to_chars, str_eq,
    chars_to_string,
};
use crate::response::{
    ErrorCode, RespV, Response, error_spec, success_data_spec, success_msg_spec, opt_str_view,
};
use crate::auth::{AuthError, Identity, auth_spec, opt_bytes_view};

verus! {

/// The HTTP methods the dispatcher distinguishes.
#[derive(Clone, Copy, PartialEq, Eq, Structural, Debug)]
pub enum HttpMethod {
    Get,
    Post,
    Put,
    Delete,
}

/// REST-addressable entity families, selected by the first path segment.
#[derive(Clone, Copy, PartialEq, Eq, Structural, Debug)]
pub enum Resource {
    NewResource,
    ResourceB,
    ResourceC,
    Unrecognized,
}

/// Sub-actions on a resource, selected by the second path segment.
#[derive(Clone, Copy, PartialEq, Eq, Structural, Debug)]
pub enum Operation {
    ById,
    Create,
    UpdateName,
    Unrecognized,
}

pub open spec fn resource_of(s: Seq<char>) -> Resource {
    if s == "new_resource"@ {
        Resource::NewResource
    } else {
        Resource::Unrecognized
    }
}

pub open spec fn op_of(s: Seq<char>) -> Operation {
    if s == "by-id"@ {
        Operation::ById
    } else if s == "create"@ {
        Operation::Create
    } else if s == "update-name"@ {
        Operation::UpdateName
    } else {
        Operation::Unrecognized
    }
}

pub open spec fn op_of_opt(s: Option<Seq<char>>) -> Operation {
    match s {
        Some(x) => op_of(x),
        None => Operation::Unrecognized,
    }
}

pub open spec fn requires_auth_spec(op: Operation) -> bool {
    op != Operation::Unrecognized
}

impl Resource {
    /// Resolves the first path segment; anything unknown is `Unrecognized`.
    pub fn from_str(s: &str) -> (r: Resource)
        ensures
            r == resource_of(s@),
    {
        if str_eq(s, "new_resource") {
            Resource::NewResource
        } else {
            Resource::Unrecognized
        }
    }

    /// Validates an optional bearer token against the shared secret and
    /// recovers the caller's identity from the token's subject claim.
    pub fn authenticate(secret: &Option<Vec<u8>>, auth_token: &Option<String>) -> (r: Result<
        Identity,
        AuthError,
    >)
        ensures
            ({
                let a = auth_spec(opt_bytes_view(*secret), opt_str_view(*auth_token));
                match r {
                    Ok(id) => a == Ok::<int, AuthError>(id.id as int),
                    Err(e) => a == Err::<int, AuthError>(e),
                }
            }),
    {
        crate::auth::authenticate(secret, auth_token)
    }
}

impl Operation {
    /// Resolves the second path segment; anything unknown is `Unrecognized`.
    pub fn from_str(s: &str) -> (r: Operation)
        ensures
            r == op_of(s@),
    {
        if str_eq(s, "by-id") {
            Operation::ById
        } else if str_eq(s, "create") {
            Operation::Create
        } else if str_eq(s, "update-name") {
            Operation::UpdateName
        } else {
            Operation::Unrecognized
        }
    }

    /// An absent second path segment resolves to `Unrecognized`.
    pub fn from_option(s: Option<String>) -> (r: Operation)
        ensures
            r == op_of_opt(opt_str_view(s)),
    {
        match s {
            Some(op) => Self::from_str(op.as_str()),
            None => Operation::Unrecognized,
        }
    }

    /// Every recognized operation requires authentication; `Unrecognized`
    /// never does, since it is rejected before auth would matter.
    pub fn requires_auth(&self) -> (r: bool)
        ensures
            r == requires_auth_spec(*self),
    {
        match *self {
            Operation::Unrecognized => false,
            _ => true,
        }
    }
}

/// The first index at or past `i` holding a character other than `/`.
pub open spec fn first_non_slash(p: Seq<char>, i: int) -> int
    decreases p.len() - i when 0 <= i <= p.len()
{
    if i >= p.len() {
        i
    } else if p[i] == '/' {
        first_non_slash(p, i + 1)
    } else {
        i
    }
}

/// The first index at or past `i` holding `/`, or the length.
pub open spec fn seg_end(p: Seq<char>, i: int) -> int
    decreases p.len() - i when 0 <= i <= p.len()
{
    if i >= p.len() {
        i
    } else if p[i] == '/' {
        i
    } else {
        seg_end(p, i + 1)
    }
}

/// The resource name: the first segment after leading separators.
pub open spec fn path_resource(p: Seq<char>) -> Seq<char> {
    let s = first_non_slash(p, 0);
    p.subrange(s, seg_end(p, s))
}

/// The operation name: the second segment, absent when there is none.
pub open spec fn path_operation(p: Seq<char>) -> Option<Seq<char>> {
    let s = first_non_slash(p, 0);
    let e = seg_end(p, s);
    if e == p.len() {
        None
    } else {
        Some(p.subrange(e + 1, seg_end(p, e + 1)))
    }
}

proof fn lemma_first_non_slash_bounds(p: Seq<char>, i: int)
    requires
        0 <= i <= p.len(),
    ensures
        i <= first_non_slash(p, i) <= p.len(),
    decreases p.len() - i,
{
    if i < p.len() && p[i] == '/' {
        lemma_first_non_slash_bounds(p, i + 1);
    }
}

proof fn lemma_seg_end_bounds(p: Seq<char>, i: int)
    requires
        0 <= i <= p.len(),
    ensures
        i <= seg_end(p, i) <= p.len(),
    decreases p.len() - i,
{
    if i < p.len() && p[i] != '/' {
        lemma_seg_end_bounds(p, i + 1);
    }
}

fn first_non_slash_exec(cs: &Vec<char>, from: usize) -> (j: usize)
    requires
        from <= cs@.len(),
    ensures
        j == first_non_slash(cs@, from as int),
        from <= j <= cs@.len(),
{
    let mut j = from;
    while j < cs.len() && cs[j] == '/'
        invariant
            from <= j <= cs@.len(),
            first_non_slash(cs@, from as int) == first_non_slash(cs@, j as int),
        decreases cs@.len() - j,
    {
        j += 1;
    }
    proof {
        lemma_first_non_slash_bounds(cs@, from as int);
    }
    j
}

fn seg_end_exec(cs: &Vec<char>, from: usize) -> (j: usize)
    requires
        from <= cs@.len(),
    ensures
        j == seg_end(cs@, from as int),
        from <= j <= cs@.len(),
{
    let mut j = from;
    while j < cs.len() && cs[j] != '/'
        invariant
            from <= j <= cs@.len(),
            seg_end(cs@, from as int) == seg_end(cs@, j as int),
        decreases cs@.len() - j,
    {
        j += 1;
    }
    proof {
        lemma_seg_end_bounds(cs@, from as int);
    }
    j
}

fn copy_range(cs: &Vec<char>, a: usize, b: usize) -> (v: Vec<char>)
    requires
        a <= b <= cs@.len(),
    ensures
        v@ == cs@.subrange(a as int, b as int),
{
    let mut v: Vec<char> = Vec::new();
    let mut i = a;
    while i < b
        invariant
            a <= i <= b <= cs@.len(),
            v@ == cs@.subrange(a as int, i as int),
        decreases b - i,
    {
        v.push(cs[i]);
        proof {
            assert(v@ =~= cs@.subrange(a as int, i + 1 as int));
        }
        i += 1;
    }
    v
}

/// Splits a path into the resource name and the optional operation name:
/// leading separators are trimmed, further segments are ignored.
pub fn parse_path(path: &str) -> (r: (String, Option<String>))
    ensures
        r.0@ == path_resource(path@),
        opt_str_view(r.1) == path_operation(path@),
{
    let cs = str_to_chars(path);
    let s = first_non_slash_exec(&cs, 0);
    let e = seg_end_exec(&cs, s);
    let resource = copy_range(&cs, s, e);
    let resource = chars_to_string(&resource);
    if e == cs.len() {
        (resource, None)
    } else {
        let e2 = seg_end_exec(&cs, e + 1);
        let operation = copy_range(&cs, e + 1, e2);
        (resource, Some(chars_to_string(&operation)))
    }
}

/// The input shape every resource handler receives; absent fields stay
/// absent rather than failing deserialization.
pub struct DataIn {
    pub id: Option<String>,
    pub name: Option<String>,
    pub order_number: Option<i32>,
    pub public_flag: Option<bool>,
    pub token: Option<String>,
}

/// Mathematical model of `DataIn`.
pub struct DataInV {
    pub id: Option<Seq<char>>,
    pub name: Option<Seq<char>>,
    pub order_number: Option<int>,
    pub public_flag: Option<bool>,
    pub token: Option<Seq<char>>,
}

impl View for DataIn {
    type V = DataInV;

    open spec fn view(&self) -> DataInV {
        DataInV {
            id: opt_str_view(self.id),
            name: opt_str_view(self.name),
            order_number: match self.order_number {
                Some(n) => Some(n as int),
                None => None,
            },
            public_flag: self.public_flag,
            token: opt_str_view(self.token),
        }
    }
}

/// An optional string-typed field: the outer `None` is a type mismatch, the
/// inner `None` an absent or null field.
pub open spec fn str_field(o: Seq<(Seq<char>, JsonVal)>, key: Seq<char>) -> Option<
    Option<Seq<char>>,
> {
    match obj_get(o, key) {
        None => Some(None),
        Some(JsonVal::Null) => Some(None),
        Some(JsonVal::Str(s)) => Some(Some(s)),
        Some(_) => None,
    }
}

/// An optional 32-bit integer field.
pub open spec fn int_field(o: Seq<(Seq<char>, JsonVal)>, key: Seq<char>) -> Option<Option<int>> {
    match obj_get(o, key) {
        None => Some(None),
        Some(JsonVal::Null) => Some(None),
        Some(JsonVal::Int(n)) => if i32::MIN <= n <= i32::MAX {
            Some(Some(n))
        } else {
            None
        },
        Some(_) => None,
    }
}

/// An optional boolean field.
pub open spec fn bool_field(o: Seq<(Seq<char>, JsonVal)>, key: Seq<char>) -> Option<Option<bool>> {
    match obj_get(o, key) {
        None => Some(None),
        Some(JsonVal::Null) => Some(None),
        Some(JsonVal::Bool(b)) => Some(Some(b)),
        Some(_) => None,
    }
}

/// What strict deserialization of a payload into `DataIn` yields: the
/// payload must be an object, known fields must carry the right type, and an
/// empty object deserializes into all-absent defaults.
pub open spec fn data_in_of(v: JsonVal) -> Option<DataInV> {
    match v {
        JsonVal::Obj(o) => match (str_field(o, "id"@), str_field(o, "name"@), int_field(
            o,
            "order_number"@,
        ), bool_field(o, "public_flag"@), str_field(o, "token"@)) {
            (Some(id), Some(name), Some(order_number), Some(public_flag), Some(token)) => Some(
                DataInV { id, name, order_number, public_flag, token },
            ),
            _ => None,
        },
        _ => None,
    }
}

pub(crate) fn get_str(v: &JsonValue, key: &str) -> (r: Result<Option<String>, ()>)
    requires
        (*v) matches JsonValue::Obj(_),
    ensures
        ({
            let o = jv(*v)->Obj_0;
            match r {
                Ok(x) => str_field(o, key@) == Some(opt_str_view(x)),
                Err(_) => str_field(o, key@) is None,
            }
        }),
{
    match v.get_field(key) {
        None => Ok(None),
        Some(f) => match f {
            JsonValue::Null => Ok(None),
            JsonValue::Str(s) => Ok(Some(s.clone())),
            _ => Err(()),
        },
    }
}

fn get_i32(v: &JsonValue, key: &str) -> (r: Result<Option<i32>, ()>)
    requires
        (*v) matches JsonValue::Obj(_),
    ensures
        ({
            let o = jv(*v)->Obj_0;
            match r {
                Ok(Some(n)) => int_field(o, key@) == Some(Some(n as int)),
                Ok(None) => int_field(o, key@) == Some(Option::<int>::None),
                Err(_) => int_field(o, key@) is None,
            }
        }),
{
    match v.get_field(key) {
        None => Ok(None),
        Some(f) => match f {
            JsonValue::Null => Ok(None),
            JsonValue::Int(n) => {
                let n = *n;
                if -2147483648i64 <= n && n <= 2147483647i64 {
                    Ok(Some(n as i32))
                } else {
                    Err(())
                }
            },
            _ => Err(()),
        },
    }
}

fn get_bool(v: &JsonValue, key: &str) -> (r: Result<Option<bool>, ()>)
    requires
        (*v) matches JsonValue::Obj(_),
    ensures
        ({
            let o = jv(*v)->Obj_0;
            match r {
                Ok(x) => bool_field(o, key@) == Some(x),
                Err(_) => bool_field(o, key@) is None,
            }
        }),
{
    match v.get_field(key) {
        None => Ok(None),
        Some(f) => match f {
            JsonValue::Null => Ok(None),
            JsonValue::Bool(b) => Ok(Some(*b)),
            _ => Err(()),
        },
    }
}

impl DataIn {
    /// Strict deserialization of a payload, as the REST path demands: any
    /// shape mismatch is an error rather than a fallback.
    pub fn from_json(v: &JsonValue) -> (r: Option<DataIn>)
        ensures
            match r {
                Some(d) => data_in_of(jv(*v)) == Some(d@),
                None => data_in_of(jv(*v)) is None,
            },
    {
        match v {
            JsonValue::Obj(_) => {
                let id = match get_str(v, "id") {
                    Ok(x) => x,
                    Err(_) => {
                        return None;
                    },
                };
                let name = match get_str(v, "name") {
                    Ok(x) => x,
                    Err(_) => {
                        return None;
                    },
                };
                let order_number = match get_i32(v, "order_number") {
                    Ok(x) => x,
                    Err(_) => {
                        return None;
                    },
                };
                let public_flag = match get_bool(v, "public_flag") {
                    Ok(x) => x,
                    Err(_) => {
                        return None;
                    },
                };
                let token = match get_str(v, "token") {
                    Ok(x) => x,
                    Err(_) => {
                        return None;
                    },
                };
                Some(DataIn { id, name, order_number, public_flag, token })
            },
            _ => None,
        }
    }
}

pub open spec fn by_id_payload(id: Seq<char>) -> JsonVal {
    JsonVal::Obj(
        seq![("id"@, JsonVal::Str(id)), ("name"@, JsonVal::Str("Example Resource"@))],
    )
}

pub open spec fn create_payload(name: Seq<char>) -> JsonVal {
    JsonVal::Obj(seq![("id"@, JsonVal::Str("12345"@)), ("name"@, JsonVal::Str(name))])
}

pub open spec fn update_payload(id: Seq<char>, name: Seq<char>) -> JsonVal {
    JsonVal::Obj(seq![("id"@, JsonVal::Str(id)), ("name"@, JsonVal::Str(name))])
}

pub open spec fn delete_msg(id: Seq<char>) -> Seq<char> {
    "Resource with id "@ + id + " deleted"@
}

/// Which (method, operation) pairs select a handler.
pub open spec fn op_method_ok(m: HttpMethod, op: Operation) -> bool {
    match (m, op) {
        (HttpMethod::Get, Operation::ById) => true,
        (HttpMethod::Post, Operation::Create) => true,
        (HttpMethod::Put, Operation::UpdateName) => true,
        (HttpMethod::Delete, Operation::ById) => true,
        _ => false,
    }
}

/// The two-key dispatch table on (method, operation), applied after auth and
/// deserialization both succeeded. There is no fallback across methods.
pub open spec fn table_spec(m: HttpMethod, op: Operation, d: DataInV) -> RespV {
    match m {
        HttpMethod::Get => match op {
            Operation::ById => match d.id {
                Some(id) => success_data_spec(by_id_payload(id)),
                None => error_spec(ErrorCode::BadRequest, "id required"@),
            },
            _ => error_spec(ErrorCode::BadRequest, "Invalid operation for GET"@),
        },
        HttpMethod::Post => match op {
            Operation::Create => match d.name {
                Some(name) => success_data_spec(create_payload(name)),
                None => error_spec(ErrorCode::BadRequest, "name required"@),
            },
            _ => error_spec(ErrorCode::BadRequest, "Invalid operation for POST"@),
        },
        HttpMethod::Put => match op {
            Operation::UpdateName => match d.id {
                Some(id) => match d.name {
                    Some(name) => success_data_spec(update_payload(id, name)),
                    None => error_spec(ErrorCode::BadRequest, "name required"@),
                },
                None => error_spec(ErrorCode::BadRequest, "id required"@),
            },
            _ => error_spec(ErrorCode::BadRequest, "Invalid operation for PUT"@),
        },
        HttpMethod::Delete => match op {
            Operation::ById => match d.id {
                Some(id) => success_msg_spec(delete_msg(id)),
                None => error_spec(ErrorCode::BadRequest, "id required"@),
            },
            _ => error_spec(ErrorCode::BadRequest, "Invalid operation for DELETE"@),
        },
    }
}

pub(crate) fn obj2(k1: &str, v1: JsonValue, k2: &str, v2: JsonValue) -> (r: JsonValue)
    ensures
        jv(r) == JsonVal::Obj(seq![(k1@, jv(v1)), (k2@, jv(v2))]),
{
    let pairs = vec![(String::from_str(k1), v1), (String::from_str(k2), v2)];
    proof {
        lemma_jv_pairs_index(pairs@);
        assert(jv_pairs(pairs@) =~= seq![(k1@, jv(v1)), (k2@, jv(v2))]);
    }
    JsonValue::Obj(pairs)
}

/// Executes the selected handler: the verified core of the dispatch table.
pub fn handle_new_resource(method: HttpMethod, operation: Operation, data: &DataIn) -> (r:
    Response)
    ensures
        r@ == table_spec(method, operation, data@),
{
    match method {
        HttpMethod::Get => match operation {
            Operation::ById => match &data.id {
                Some(id) => Response::of_data(
                    obj2(
                        "id",
                        JsonValue::Str(id.clone()),
                        "name",
                        JsonValue::Str(String::from_str("Example Resource")),
                    ),
                ),
                None => Response::of_error(ErrorCode::BadRequest, "id required"),
            },
            _ => Response::of_error(ErrorCode::BadRequest, "Invalid operation for GET"),
        },
        HttpMethod::Post => match operation {
            Operation::Create => match &data.name {
                Some(name) => Response::of_data(
                    obj2(
                        "id",
                        JsonValue::Str(String::from_str("12345")),
                        "name",
                        JsonValue::Str(name.clone()),
                    ),
                ),
                None => Response::of_error(ErrorCode::BadRequest, "name required"),
            },
            _ => Response::of_error(ErrorCode::BadRequest, "Invalid operation for POST"),
        },
        HttpMethod::Put => match operation {
            Operation::UpdateName => match &data.id {
                Some(id) => match &data.name {
                    Some(name) => Response::of_data(
                        obj2(
                            "id",
                            JsonValue::Str(id.clone()),
                            "name",
                            JsonValue::Str(name.clone()),
                        ),
                    ),
                    None => Response::of_error(ErrorCode::BadRequest, "name required"),
                },
                None => Response::of_error(ErrorCode::BadRequest, "id required"),
            },
            _ => Response::of_error(ErrorCode::BadRequest, "Invalid operation for PUT"),
        },
        HttpMethod::Delete => match operation {
            Operation::ById => match &data.id {
                Some(id) => {
                    let mut m = String::from_str("Resource with id ");
                    m.append(id.as_str());
                    m.append(" deleted");
                    Response::of_msg(m)
                },
                None => Response::of_error(ErrorCode::BadRequest, "id required"),
            },
            _ => Response::of_error(ErrorCode::BadRequest, "Invalid operation for DELETE"),
        },
    }
}

/// Dispatch for the `new_resource` family: resolve the operation, gate on
/// auth, deserialize strictly, then select by (method, operation).
pub open spec fn new_resource_spec(
    secret: Option<Seq<u8>>,
    m: HttpMethod,
    op_name: Option<Seq<char>>,
    data: JsonVal,
    token: Option<Seq<char>>,
) -> RespV {
    let op = op_of_opt(op_name);
    let auth = if requires_auth_spec(op) {
        auth_spec(secret, token)
    } else {
        Ok(0)
    };
    match auth {
        Err(e) => error_spec(ErrorCode::Unauthorized, e.message_spec()),
        Ok(_) => match data_in_of(data) {
            None => error_spec(ErrorCode::BadRequest, "invalid request data"@),
            Some(d) => table_spec(m, op, d),
        },
    }
}

/// Routes a request addressed to the `new_resource` family.
pub fn route_new_resource(
    method: HttpMethod,
    operation: Option<String>,
    data: &JsonValue,
    auth_token: &Option<String>,
    _client_id: Option<String>,
    secret: &Option<Vec<u8>>,
) -> (r: Response)
    ensures
        r@ == new_resource_spec(
            opt_bytes_view(*secret),
            method,
            opt_str_view(operation),
            jv(*data),
            opt_str_view(*auth_token),
        ),
{
    let op = Operation::from_option(operation);
    if op.requires_auth() {
        match Resource::authenticate(secret, auth_token) {
            Ok(_) => (),
            Err(e) => {
                let msg = e.message();
                return Response::Error { code: ErrorCode::Unauthorized, msg: Some(msg) };
            },
        }
    }
    match DataIn::from_json(data) {
        None => Response::of_error(ErrorCode::BadRequest, "invalid request data"),
        Some(d) => handle_new_resource(method, op, &d),
    }
}

/// The complete REST dispatch function: resolve the resource, reject unknown
/// resources before auth is ever consulted, otherwise delegate.
pub open spec fn route_spec(
    secret: Option<Seq<u8>>,
    m: HttpMethod,
    path: Seq<char>,
    data: JsonVal,
    token: Option<Seq<char>>,
) -> RespV {
    match resource_of(path_resource(path)) {
        Resource::NewResource => new_resource_spec(secret, m, path_operation(path), data, token),
        _ => error_spec(ErrorCode::NotFound, "Unrecognized resource"@),
    }
}

/// The REST dispatcher. The shared secret is injected at construction and
/// immutable thereafter; `None` means the auth subsystem was never
/// configured, and every authenticated request then fails closed.
pub struct RestRouter {
    pub secret: Option<Vec<u8>>,
}

impl Clone for RestRouter {
    fn clone(&self) -> (r: RestRouter) {
        RestRouter { secret: (match &self.secret { Some(s) => Some(s.clone()), None => None }) }
    }
}

impl RestRouter {
    pub fn new(secret: Option<Vec<u8>>) -> (r: RestRouter)
        ensures
            r.secret == secret,
    {
        RestRouter { secret }
    }

    /// Resolves an inbound request to exactly one handler and normalizes the
    /// outcome: every dispatch path terminates in exactly one response.
    pub fn route(
        &self,
        method: HttpMethod,
        path: &str,
        data: &JsonValue,
        auth_token: &Option<String>,
        _client_id: Option<String>,
        _ip_address: Option<String>,
    ) -> (r: Response)
        ensures
            r@ == route_spec(
                opt_bytes_view(self.secret),
                method,
                path@,
                jv(*data),
                opt_str_view(*auth_token),
            ),
    {
        let (resource, operation) = parse_path(path);
        match Resource::from_str(resource.as_str()) {
            Resource::NewResource => route_new_resource(
                method,
                operation,
                data,
                auth_token,
                _client_id,
                &self.secret,
            ),
            _ => Response::of_error(ErrorCode::NotFound, "Unrecognized resource"),
        }
    }

    /// Answers a redirect probe with the unrecognized-resource error text.
    pub fn route_redirect(&self, _path: &str, _data: &JsonValue) -> (r: String)
        ensures
            r@ == "Unrecognized resource: NotFound"@,
    {
        String::from_str("Unrecognized resource: NotFound")
    }
}

/// Every request naming an unknown resource is answered `NotFound`, whatever
/// the method, the payload, the token and the secret: auth is never reached.
pub proof fn lemma_unknown_resource_not_found(
    secret: Option<Seq<u8>>,
    m: HttpMethod,
    path: Seq<char>,
    data: JsonVal,
    token: Option<Seq<char>>,
)
    requires
        path_resource(path) != "new_resource"@,
    ensures
        route_spec(secret, m, path, data, token) == error_spec(
            ErrorCode::NotFound,
            "Unrecognized resource"@,
        ),
{
}

/// For every operation that requires auth: a request without a token is
/// answered `Unauthorized` (as is any request while the secret is unset),
/// and a token that does not verify, or whose subject claim is not a
/// 128-bit identifier, is answered `Unauthorized` as well.
pub proof fn lemma_auth_gate(
    secret: Option<Seq<u8>>,
    m: HttpMethod,
    path: Seq<char>,
    data: JsonVal,
    token: Option<Seq<char>>,
)
    requires
        path_resource(path) == "new_resource"@,
        requires_auth_spec(op_of_opt(path_operation(path))),
    ensures
        token is None ==> route_spec(secret, m, path, data, token) matches RespV::Error {
            code: ErrorCode::Unauthorized,
            ..
        },
        secret is Some && token is None ==> route_spec(secret, m, path, data, token) == error_spec(
            ErrorCode::Unauthorized,
            "auth token required"@,
        ),
        secret is None ==> route_spec(secret, m, path, data, token) == error_spec(
            ErrorCode::Unauthorized,
            "JWT secret not set"@,
        ),
        (secret matches Some(sec) && token matches Some(t) && crate::auth::verify_subject(sec, t)
            is None) ==> route_spec(secret, m, path, data, token) == error_spec(
            ErrorCode::Unauthorized,
            "invalid auth token"@,
        ),
        (secret matches Some(sec) && token matches Some(t) && crate::auth::verify_subject(sec, t)
            matches Some(sub) && crate::auth::uuid_of(sub) is None) ==> route_spec(
            secret,
            m,
            path,
            data,
            token,
        ) == error_spec(ErrorCode::Unauthorized, "invalid auth token"@),
{
}

/// When authentication succeeds, the recovered identity is exactly the
/// 128-bit identifier spelled by the verified token's subject claim.
pub proof fn lemma_identity_is_subject(secret: Seq<u8>, token: Seq<char>)
    ensures
        auth_spec(Some(secret), Some(token)) matches Ok(u) ==> {
            &&& crate::auth::verify_subject(secret, token) matches Some(sub)
            &&& crate::auth::uuid_of(sub) == Some(u)
        },
{
}

/// An operation invoked through a method it is not valid for is answered
/// `BadRequest`, never dispatched across methods.
pub proof fn lemma_method_mismatch(m: HttpMethod, op: Operation, d: DataInV)
    requires
        op != Operation::Unrecognized,
        !op_method_ok(m, op),
    ensures
        table_spec(m, op, d) matches RespV::Error { code: ErrorCode::BadRequest, .. },
{
}

/// The same, seen from the dispatcher: once past auth and deserialization, a
/// recognized operation reached through the wrong method is `BadRequest`.
pub proof fn lemma_method_mismatch_dispatch(
    secret: Option<Seq<u8>>,
    m: HttpMethod,
    path: Seq<char>,
    data: JsonVal,
    token: Option<Seq<char>>,
)
    requires
        path_resource(path) == "new_resource"@,
        op_of_opt(path_operation(path)) != Operation::Unrecognized,
        !op_method_ok(m, op_of_opt(path_operation(path))),
    ensures
        (auth_spec(secret, token) is Ok && data_in_of(data) is Some) ==> route_spec(
            secret,
            m,
            path,
            data,
            token,
        ) matches RespV::Error { code: ErrorCode::BadRequest, .. },
{
    if auth_spec(secret, token) is Ok && data_in_of(data) is Some {
        let op = op_of_opt(path_operation(path));
        let d = data_in_of(data)->0;
        lemma_method_mismatch(m, op, d);
    }
}

} // verus!
