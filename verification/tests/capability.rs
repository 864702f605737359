use mcp_authorization::provider::DenyByDefault;
use mcp_authorization::{AuthContext, Capability, Proof};

struct ManageWorkflows;
impl Capability for ManageWorkflows {
    const NAME: &'static str = "manage_workflows";
}

struct BackwardRouting;
impl Capability for BackwardRouting {
    const NAME: &'static str = "backward_routing";
}

struct Admin;
impl Capability for Admin {
    const NAME: &'static str = "admin";
}

fn caps(names: &[&str]) -> Vec<String> {
    names.iter().map(|s| s.to_string()).collect()
}

#[test]
fn proof_is_zero_sized() {
    assert_eq!(std::mem::size_of::<Proof<ManageWorkflows>>(), 0);
    assert_eq!(std::mem::size_of::<Proof<BackwardRouting>>(), 0);
}

#[test]
fn check_returns_proof_when_capable() {
    let auth = AuthContext::new(caps(&["manage_workflows", "backward_routing"]));
    assert!(auth.check::<ManageWorkflows>().is_some());
    assert!(auth.check::<BackwardRouting>().is_some());
}

#[test]
fn check_returns_none_when_not_capable() {
    let auth = AuthContext::new(caps(&["manage_workflows"]));
    assert!(auth.check::<BackwardRouting>().is_none());
}

#[test]
fn require_returns_error_when_not_capable() {
    let auth = AuthContext::new(Vec::<String>::new());
    let err = auth.require::<Admin>().unwrap_err();
    assert!(err.message.contains("admin"));
}

#[test]
fn has_checks_by_string_name() {
    let auth = AuthContext::new(caps(&["manage_workflows"]));
    assert!(auth.has("manage_workflows"));
    assert!(!auth.has("admin"));
}

#[test]
fn empty_context_has_no_capabilities() {
    let auth = AuthContext::new(Vec::<String>::new());
    assert!(!auth.has("anything"));
    assert!(auth.check::<Admin>().is_none());
}

#[test]
fn proof_is_copyable() {
    let auth = AuthContext::new(caps(&["manage_workflows"]));
    let proof = auth.check::<ManageWorkflows>().unwrap();
    let _copy = proof;
    let _another = proof;
}

#[test]
fn require_error_is_invalid_params_with_exact_message() {
    let auth = AuthContext::new(caps(&["manage_workflows"]));
    let err = auth.require::<Admin>().unwrap_err();
    assert_eq!(err.code, rmcp::model::ErrorCode::INVALID_PARAMS);
    assert_eq!(err.message, "missing required capability: admin");
    assert!(err.data.is_none());
}

#[test]
fn require_returns_proof_when_capable() {
    let auth = AuthContext::new(caps(&["admin"]));
    assert!(auth.require::<Admin>().is_ok());
}

#[test]
fn new_drops_repeated_names() {
    let auth = AuthContext::new(caps(&["admin", "admin", "ops", "admin"]));
    let names = auth.capability_names();
    assert_eq!(names, &vec!["admin".to_string(), "ops".to_string()]);
    assert!(auth.has("ops"));
}

#[test]
fn empty_holds_nothing() {
    let auth = AuthContext::empty();
    assert!(auth.capability_names().is_empty());
    assert!(!auth.has(""));
    assert!(auth.check::<ManageWorkflows>().is_none());
}

#[test]
fn has_compares_whole_names() {
    let auth = AuthContext::new(caps(&["admin"]));
    assert!(!auth.has("adm"));
    assert!(!auth.has("admins"));
    assert!(!auth.has("Admin"));
}

#[test]
fn clone_keeps_capabilities() {
    let auth = AuthContext::new(caps(&["a", "b"]));
    let copy = auth.clone();
    assert_eq!(copy.capability_names(), auth.capability_names());
}

#[test]
fn deny_by_default_uses_injected_context() {
    let injected = AuthContext::new(caps(&["admin"]));
    let resolved = DenyByDefault.resolve(Some(&injected));
    assert!(resolved.has("admin"));
}

#[test]
fn deny_by_default_without_context_is_empty() {
    let resolved = DenyByDefault.resolve(None);
    assert!(resolved.capability_names().is_empty());
    assert!(!resolved.has("admin"));
}

#[test]
fn proof_debug_text_names_the_capability() {
    let auth = AuthContext::new(caps(&["admin"]));
    let proof = auth.check::<Admin>().unwrap();
    assert_eq!(proof.debug_text(), "Proof<admin>");
    assert_eq!(format!("{:?}", proof), "Proof<admin>");
}
