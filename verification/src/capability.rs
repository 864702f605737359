use std::marker::PhantomData;
use vstd::prelude::*;

verus! {

broadcast use vstd::seq_lib::group_seq_properties;

/// The outside error type that tool handlers hand back to the MCP runtime.
#[verifier::external_type_specification]
#[verifier::external_body]
pub struct ExErrorData(rmcp::ErrorData);

/// Names the value that `rmcp::ErrorData::invalid_params(message, None)` builds:
/// an error with code `INVALID_PARAMS`, the given message and no data.
pub uninterp spec fn invalid_params_error(message: Seq<char>) -> rmcp::ErrorData;

/// Calls `rmcp::ErrorData::invalid_params` with the given message and no data.
/// Trusted: the result is the named value for that message; the constructor
/// depends on its argument alone.
#[verifier::external_body]
fn invalid_params(message: String) -> (e: rmcp::ErrorData)
    ensures
        e == invalid_params_error(message@),
{
    rmcp::ErrorData::invalid_params(message, None)
}

/// Marker trait for authorization capabilities.
///
/// Implement it on zero-sized types; `NAME` is the wire name of the capability
/// (the string held in JWT claims, database flags and the like).
pub trait Capability: Send + Sync + 'static {
    const NAME: &'static str;
}

/// A zero-sized token showing that capability `C` was checked.
///
/// Its only field is private, so outside this crate a `Proof<C>` can only be
/// obtained from [`AuthContext::check`] or [`AuthContext::require`].
pub struct Proof<C: Capability> {
    _marker: PhantomData<C>,
}

impl<C: Capability> Clone for Proof<C> {
    fn clone(&self) -> (r: Self) {
        *self
    }
}

impl<C: Capability> Copy for Proof<C> {
}

/// The formatter of `std::fmt`, carried through `Debug` unread.
#[verifier::external_type_specification]
#[verifier::external_body]
pub struct ExFormatter<'a>(std::fmt::Formatter<'a>);

/// The error of `std::fmt`.
#[verifier::external_type_specification]
#[verifier::external_body]
pub struct ExFmtError(std::fmt::Error);

impl<C: Capability> Proof<C> {
    /// The text of a proof for `Debug`: `Proof<` and the capability's name and `>`.
    pub fn debug_text(&self) -> (r: String)
        ensures
            r@ == "Proof<"@ + C::NAME@ + ">"@,
    {
        let mut t = String::from_str("Proof<");
        t.append(C::NAME);
        t.append(">");
        t
    }
}

impl<C: Capability> std::fmt::Debug for Proof<C> {
    /// Writes `debug_text` out with `Formatter::write_str`; nothing is claimed
    /// of the write.
    #[verifier::external_body]
    fn fmt(&self, f: &mut std::fmt::Formatter<'_>) -> std::fmt::Result {
        f.write_str(self.debug_text().as_str())
    }
}

/// Compares two string slices by their characters.
pub fn str_eq(a: &str, b: &str) -> (r: bool)
    ensures
        r == (a@ == b@),
{
    let x = String::from_str(a);
    let y = String::from_str(b);
    x == y
}

/// The character sequences of a list of strings.
pub open spec fn names_of(names: Seq<String>) -> Seq<Seq<char>> {
    names.map_values(|s: String| s@)
}

/// The prefix of the message that `require` gives when a capability is missing.
pub open spec fn missing_capability_prefix() -> Seq<char> {
    "missing required capability: "@
}

/// The message that `require` gives when the capability `name` is missing.
pub open spec fn missing_capability_message(name: Seq<char>) -> Seq<char> {
    missing_capability_prefix() + name
}

fn build_missing_capability_message(name: &str) -> (r: String)
    ensures
        r@ == missing_capability_message(name@),
{
    let mut m = String::from_str("missing required capability: ");
    m.append(name);
    m
}

/// Per-request authorization context: the set of capability names a caller holds.
///
/// The names are kept in the order in which they were first given, each once.
#[derive(Debug)]
pub struct AuthContext {
    capabilities: Vec<String>,
}

impl AuthContext {
    #[verifier::type_invariant]
    spec fn distinct(&self) -> bool {
        names_of(self.capabilities@).no_duplicates()
    }
}

impl View for AuthContext {
    type V = Set<Seq<char>>;

    closed spec fn view(&self) -> Set<Seq<char>> {
        names_of(self.capabilities@).to_set()
    }
}

fn contains_name(names: &Vec<String>, name: &str) -> (r: bool)
    ensures
        r == names_of(names@).contains(name@),
{
    let n = names.len();
    for i in 0..n
        invariant
            n == names@.len(),
            forall|j: int| 0 <= j < i ==> names@[j]@ != name@,
    {
        if str_eq(names[i].as_str(), name) {
            assert(names_of(names@)[i as int] == name@);
            return true;
        }
    }
    assert forall|j: int| 0 <= j < names_of(names@).len() implies names_of(names@)[j] != name@ by {}
    false
}

impl AuthContext {
    /// Creates a context holding each of the given capability names.
    pub fn new(caps: Vec<String>) -> (r: AuthContext)
        ensures
            r@ == names_of(caps@).to_set(),
    {
        let mut kept: Vec<String> = Vec::new();
        let n = caps.len();
        for i in 0..n
            invariant
                n == caps@.len(),
                names_of(kept@).no_duplicates(),
                names_of(kept@).to_set() == names_of(caps@.take(i as int)).to_set(),
        {
            let ghost before = kept@;
            let name = caps[i].clone();
            assert(caps@.take(i + 1) =~= caps@.take(i as int).push(caps@[i as int]));
            assert(names_of(caps@.take(i + 1)) =~= names_of(caps@.take(i as int)).push(name@));
            proof {
                names_of(caps@.take(i as int)).lemma_push_to_set_commute(name@);
                names_of(before).lemma_push_to_set_commute(name@);
            }
            if !contains_name(&kept, name.as_str()) {
                kept.push(name);
                assert(names_of(kept@) =~= names_of(before).push(name@));
            } else {
                assert(names_of(kept@).to_set().contains(name@));
            }
            assert(names_of(kept@).to_set() =~= names_of(caps@.take(i + 1)).to_set());
        }
        assert(caps@.take(n as int) == caps@);
        AuthContext { capabilities: kept }
    }

    /// The context with no capabilities: the deny-by-default identity.
    pub fn empty() -> (r: AuthContext)
        ensures
            r@ == Set::<Seq<char>>::empty(),
    {
        let r = AuthContext { capabilities: Vec::new() };
        assert(r@ =~= Set::<Seq<char>>::empty());
        r
    }

    /// String-based capability query.
    pub fn has(&self, name: &str) -> (r: bool)
        ensures
            r == self@.contains(name@),
    {
        contains_name(&self.capabilities, name)
    }

    /// Obtains a `Proof<C>` when the context holds `C::NAME`, and `None` otherwise.
    pub fn check<C: Capability>(&self) -> (r: Option<Proof<C>>)
        ensures
            r is Some <==> self@.contains(C::NAME@),
    {
        if self.has(C::NAME) {
            Some(Proof { _marker: PhantomData })
        } else {
            None
        }
    }

    /// Like [`check`](Self::check), but a missing capability gives an
    /// `INVALID_PARAMS` error whose message names the capability.
    pub fn require<C: Capability>(&self) -> (r: Result<Proof<C>, rmcp::ErrorData>)
        ensures
            r is Ok <==> self@.contains(C::NAME@),
            r matches Err(e) ==> e == invalid_params_error(missing_capability_message(C::NAME@)),
    {
        match self.check::<C>() {
            Some(p) => Ok(p),
            None => Err(invalid_params(build_missing_capability_message(C::NAME))),
        }
    }

    /// The capability names this context holds, each once.
    pub fn capability_names(&self) -> (r: &Vec<String>)
        ensures
            names_of(r@).to_set() == self@,
            names_of(r@).no_duplicates(),
    {
        proof {
            use_type_invariant(self);
        }
        &self.capabilities
    }
}

impl Clone for AuthContext {
    fn clone(&self) -> (r: Self)
        ensures
            r@ == self@,
    {
        proof {
            use_type_invariant(self);
        }
        let mut out: Vec<String> = Vec::new();
        let n = self.capabilities.len();
        for i in 0..n
            invariant
                n == self.capabilities@.len(),
                names_of(out@) == names_of(self.capabilities@.take(i as int)),
        {
            let ghost before = out@;
            let c = self.capabilities[i].clone();
            out.push(c);
            assert(self.capabilities@.take(i + 1) =~= self.capabilities@.take(i as int).push(self.capabilities@[i as int]));
            assert(names_of(out@) =~= names_of(before).push(c@));
            assert(names_of(out@) =~= names_of(self.capabilities@.take(i + 1)));
        }
        assert(self.capabilities@.take(n as int) == self.capabilities@);
        AuthContext { capabilities: out }
    }
}

}
