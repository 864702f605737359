//! The authorized server: a builder around an inner MCP handler that holds
//! the tool registry and, once chosen, the source of each request's
//! [`AuthContext`].
//!
//! The server is a type-state builder. It starts in the [`NoAuth`] state; only
//! after an auth source is chosen ([`AuthorizedServer::with_auth`] or
//! [`AuthorizedServer::deny_by_default`]) is it in the [`Authorized`] state,
//! the only state in which it answers requests.
use vstd::prelude::*;

use crate::capability::AuthContext;
use crate::json::JsonObject;
use crate::provider::DenyByDefault;
use crate::registry::{
    materialized, registered, tool_views, visible_in, with_gate, AuthToolDef, AuthToolRegistry,
    Tool, is_typed_def, opt_object_view,
};
use crate::json::object_view;

verus! {

/// Names the value that `rmcp::ErrorData::new(ErrorCode::METHOD_NOT_FOUND,
/// message, None)` builds: an error with code `METHOD_NOT_FOUND`, the given
/// message and no data.
pub uninterp spec fn method_not_found_error(message: Seq<char>) -> rmcp::ErrorData;

/// Calls `rmcp::ErrorData::new` with code `METHOD_NOT_FOUND`, the given
/// message and no data. Trusted: the result is the named value for that
/// message; the constructor depends on its arguments alone.
#[verifier::external_body]
fn method_not_found(message: String) -> (e: rmcp::ErrorData)
    ensures
        e == method_not_found_error(message@),
{
    rmcp::ErrorData::new(rmcp::model::ErrorCode::METHOD_NOT_FOUND, message, None)
}

/// The message of the error for a call of a tool that is not shown.
pub open spec fn tool_not_found_message(name: Seq<char>) -> Seq<char> {
    "tool not found: "@ + name
}

fn build_tool_not_found_message(name: &str) -> (r: String)
    ensures
        r@ == tool_not_found_message(name@),
{
    let mut m = String::from_str("tool not found: ");
    m.append(name);
    m
}

/// Type-state marker: no auth source has been chosen yet. A server in this
/// state does not answer requests.
pub struct NoAuth;

/// Type-state marker: the auth source `P` is wired in.
pub struct Authorized<P>(pub P);

/// Marker for "this server has an auth source and may be served".
pub trait ReadyToServe {
}

impl<P> ReadyToServe for Authorized<P> {
}

/// A wrapper around an inner MCP handler that filters the tool list and
/// shapes schemas by each request's [`AuthContext`], and refuses calls of
/// tools that the request may not see.
pub struct AuthorizedServer<S, A = NoAuth> {
    inner: S,
    registry: AuthToolRegistry,
    auth: A,
}

impl<S> AuthorizedServer<S, NoAuth> {
    /// Starts building an authorized server around `inner`, with no tools and
    /// no auth source.
    pub fn new(inner: S) -> (r: Self)
        ensures
            r.inner_handler() == inner,
            r.tools() == Seq::<AuthToolDef>::empty(),
    {
        AuthorizedServer { inner, registry: AuthToolRegistry::new(), auth: NoAuth }
    }
}

impl<S, A> AuthorizedServer<S, A> {
    /// The inner handler.
    pub closed spec fn inner_handler(&self) -> S {
        self.inner
    }

    /// The registered tool definitions.
    pub closed spec fn tools(&self) -> Seq<AuthToolDef> {
        self.registry@
    }

    /// The auth state.
    pub closed spec fn auth_state(&self) -> A {
        self.auth
    }

    /// Registers a tool from its schemas and requirement tables, as
    /// [`AuthToolRegistry::register_typed`] does.
    pub fn register(
        self,
        name: String,
        description: String,
        input_schema: JsonObject,
        output_schema: Option<JsonObject>,
        input_requirements: &'static [(&'static str, &'static str)],
        output_requirements: &'static [(&'static str, &'static str)],
    ) -> (r: Self)
        ensures
            r.inner_handler() == self.inner_handler(),
            r.auth_state() == self.auth_state(),
            exists|d: AuthToolDef|
                {
                    &&& #[trigger] is_typed_def(
                        d,
                        name@,
                        description@,
                        object_view(input_schema),
                        opt_object_view(output_schema),
                        input_requirements,
                        output_requirements,
                    )
                    &&& r.tools() == registered(self.tools(), d)
                },
    {
        let mut s = self;
        s.registry.register_typed(
            name,
            description,
            input_schema,
            output_schema,
            input_requirements,
            output_requirements,
        );
        s
    }

    /// Gates the named tool by `capability`: it is hidden from, and cannot be
    /// called by, requests whose context lacks the capability.
    pub fn authorize(self, tool_name: &str, capability: &'static str) -> (r: Self)
        ensures
            r.inner_handler() == self.inner_handler(),
            r.auth_state() == self.auth_state(),
            r.tools() == with_gate(self.tools(), tool_name@, capability),
    {
        let mut s = self;
        s.registry.set_authorization(tool_name, capability);
        s
    }

    /// Chooses the auth source; the server can then be served.
    pub fn with_auth<P>(self, provider: P) -> (r: AuthorizedServer<S, Authorized<P>>)
        ensures
            r.inner_handler() == self.inner_handler(),
            r.tools() == self.tools(),
            r.auth_state() == Authorized(provider),
    {
        AuthorizedServer { inner: self.inner, registry: self.registry, auth: Authorized(provider) }
    }

    /// Chooses [`DenyByDefault`] as the auth source: a context that
    /// middleware attached to the request if there is one, and otherwise the
    /// empty context, so that an unauthenticated caller sees only ungated
    /// tools.
    pub fn deny_by_default(self) -> (r: AuthorizedServer<S, Authorized<DenyByDefault>>)
        ensures
            r.inner_handler() == self.inner_handler(),
            r.tools() == self.tools(),
    {
        self.with_auth(DenyByDefault)
    }

    /// The inner handler.
    pub fn inner(&self) -> (r: &S)
        ensures
            *r == self.inner_handler(),
    {
        &self.inner
    }

    /// The tool registry.
    pub fn registry(&self) -> (r: &AuthToolRegistry)
        ensures
            r@ == self.tools(),
    {
        &self.registry
    }
}

impl<S, P> AuthorizedServer<S, Authorized<P>> {
    /// The auth source.
    pub fn provider(&self) -> (r: &P)
        ensures
            Authorized(*r) == self.auth_state(),
    {
        &self.auth.0
    }

    /// The answer to a tool-list request from a caller holding `auth`: the
    /// visible tools with shaped schemas.
    pub fn list_tools_for(&self, auth: &AuthContext) -> (r: Vec<Tool>)
        ensures
            tool_views(r@) == materialized(self.tools(), auth@),
    {
        self.registry.materialize(auth)
    }

    /// Decides a tool call from a caller holding `auth`: it goes on to the
    /// inner handler exactly when the tool is registered and visible to the
    /// caller; otherwise the call fails with `METHOD_NOT_FOUND`.
    pub fn check_call(&self, tool_name: &str, auth: &AuthContext) -> (r: Result<(), rmcp::ErrorData>)
        ensures
            r is Ok <==> visible_in(self.tools(), tool_name@, auth@),
            r matches Err(e) ==> e == method_not_found_error(tool_not_found_message(tool_name@)),
    {
        if self.registry.is_visible(tool_name, auth) {
            Ok(())
        } else {
            Err(method_not_found(build_tool_not_found_message(tool_name)))
        }
    }
}

}
