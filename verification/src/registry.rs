//! The registry of tools with their authorization metadata, and the
//! per-request materialization of the tool list.
use vstd::prelude::*;

use crate::capability::{str_eq, AuthContext};
use crate::json::{clone_object, object_view, JsonObject, JsonValue};
use crate::schema::{
    lemma_strip_properties_none, lemma_strip_variants_none, remove_properties, remove_variants,
    str_views, strip_properties, strip_variants, unmet_targets, unmet_targets_of,
};

verus! {

broadcast use vstd::seq_lib::group_seq_properties;

/// The view of an optional string.
pub open spec fn opt_string_view(s: Option<String>) -> Option<Seq<char>> {
    match s {
        Some(x) => Some(x@),
        None => None,
    }
}

/// The view of an optional JSON object.
pub open spec fn opt_object_view(o: Option<JsonObject>) -> Option<Seq<(Seq<char>, JsonValue)>> {
    match o {
        Some(x) => Some(object_view(x)),
        None => None,
    }
}

/// The model of a tool as listed to a client.
pub struct ToolView {
    pub name: Seq<char>,
    pub title: Option<Seq<char>>,
    pub description: Option<Seq<char>>,
    pub input_schema: Seq<(Seq<char>, JsonValue)>,
    pub output_schema: Option<Seq<(Seq<char>, JsonValue)>>,
    pub extra: Seq<(Seq<char>, JsonValue)>,
}

/// A tool as an MCP server lists it: its name, title, description, input
/// schema and optional output schema. Its other fields (annotations, icons,
/// metadata) are carried in `extra` as JSON entries, unchanged.
#[derive(Debug, PartialEq)]
pub struct Tool {
    pub name: String,
    pub title: Option<String>,
    pub description: Option<String>,
    pub input_schema: JsonObject,
    pub output_schema: Option<JsonObject>,
    pub extra: JsonObject,
}

impl View for Tool {
    type V = ToolView;

    open spec fn view(&self) -> ToolView {
        ToolView {
            name: self.name@,
            title: opt_string_view(self.title),
            description: opt_string_view(self.description),
            input_schema: object_view(self.input_schema),
            output_schema: opt_object_view(self.output_schema),
            extra: object_view(self.extra),
        }
    }
}

fn clone_opt_string(s: &Option<String>) -> (r: Option<String>)
    ensures
        opt_string_view(r) == opt_string_view(*s),
{
    match s {
        Some(x) => Some(x.clone()),
        None => None,
    }
}

fn clone_opt_object(o: &Option<JsonObject>) -> (r: Option<JsonObject>)
    ensures
        opt_object_view(r) == opt_object_view(*o),
{
    match o {
        Some(x) => Some(clone_object(x)),
        None => None,
    }
}

impl Tool {
    /// A tool with a name, a description and an input schema, and no title,
    /// output schema or other fields.
    pub fn new(name: String, description: String, input_schema: JsonObject) -> (r: Tool)
        ensures
            r@ == (ToolView {
                name: name@,
                title: None,
                description: Some(description@),
                input_schema: object_view(input_schema),
                output_schema: None,
                extra: Seq::empty(),
            }),
    {
        let r = Tool {
            name,
            title: None,
            description: Some(description),
            input_schema,
            output_schema: None,
            extra: Vec::new(),
        };
        assert(object_view(r.extra) =~= Seq::empty());
        r
    }

    /// The same tool with the given output schema.
    pub fn with_raw_output_schema(self, output_schema: JsonObject) -> (r: Tool)
        ensures
            r@ == (ToolView { output_schema: Some(object_view(output_schema)), ..self@ }),
    {
        Tool { output_schema: Some(output_schema), ..self }
    }
}

impl Clone for Tool {
    fn clone(&self) -> (r: Self)
        ensures
            r@ == self@,
    {
        Tool {
            name: self.name.clone(),
            title: clone_opt_string(&self.title),
            description: clone_opt_string(&self.description),
            input_schema: clone_object(&self.input_schema),
            output_schema: clone_opt_object(&self.output_schema),
            extra: clone_object(&self.extra),
        }
    }
}

/// A tool definition with its authorization metadata.
pub struct AuthToolDef {
    /// The tool with its full schemas.
    pub base_tool: Tool,
    /// Tool-level gate: the tool is hidden from callers who lack this capability.
    pub authorization: Option<&'static str>,
    /// Field-level requirements `(field, capability)` for input schema shaping.
    pub input_requirements: &'static [(&'static str, &'static str)],
    /// Variant-level requirements `(variant, capability)` for output schema shaping.
    pub output_requirements: &'static [(&'static str, &'static str)],
}

/// The name of the tool that `d` defines.
pub open spec fn def_name(d: AuthToolDef) -> Seq<char> {
    d.base_tool.name@
}

/// Whether the tool of `d` is visible to a caller holding `auth`: it has no
/// gate, or `auth` holds its gate.
pub open spec fn visible_to(d: AuthToolDef, auth: Set<Seq<char>>) -> bool {
    match d.authorization {
        Some(cap) => auth.contains(cap@),
        None => true,
    }
}

/// `visible_to` as a predicate.
pub open spec fn visible_pred(auth: Set<Seq<char>>) -> spec_fn(AuthToolDef) -> bool {
    |d: AuthToolDef| visible_to(d, auth)
}

/// The tool of `d` as a caller holding `auth` sees it: its input schema and
/// output schema shaped as `SchemaShaper::shape_input` and
/// `SchemaShaper::shape_output` shape them for the requirement tables of `d`.
pub open spec fn shaped_tool(d: AuthToolDef, auth: Set<Seq<char>>) -> ToolView {
    let t = d.base_tool@;
    ToolView {
        input_schema: strip_properties(t.input_schema, unmet_targets(d.input_requirements@, auth)),
        output_schema: match t.output_schema {
            Some(o) => Some(strip_variants(o, unmet_targets(d.output_requirements@, auth))),
            None => None,
        },
        ..t
    }
}

/// `shaped_tool` as a function.
pub open spec fn shaped_fn(auth: Set<Seq<char>>) -> spec_fn(AuthToolDef) -> ToolView {
    |d: AuthToolDef| shaped_tool(d, auth)
}

/// The tools that a caller holding `auth` is shown: the visible ones, in
/// registration order, each shaped.
pub open spec fn materialized(defs: Seq<AuthToolDef>, auth: Set<Seq<char>>) -> Seq<ToolView> {
    defs.filter(visible_pred(auth)).map_values(shaped_fn(auth))
}

/// The views of a sequence of tools.
pub open spec fn tool_views(tools: Seq<Tool>) -> Seq<ToolView> {
    tools.map_values(|t: Tool| t@)
}

/// No two definitions are for tools of the same name.
pub open spec fn names_distinct(defs: Seq<AuthToolDef>) -> bool {
    forall|i: int, j: int|
        0 <= i < defs.len() && 0 <= j < defs.len() && i != j ==> def_name(#[trigger] defs[i])
            != def_name(#[trigger] defs[j])
}

/// Whether `d` is the definition that `register_typed` builds from these
/// arguments: the tool `Tool::new(name, description, input)` with the output
/// schema when there is one, no tool-level gate, and the two tables.
pub open spec fn is_typed_def(
    d: AuthToolDef,
    name: Seq<char>,
    description: Seq<char>,
    input: Seq<(Seq<char>, JsonValue)>,
    output: Option<Seq<(Seq<char>, JsonValue)>>,
    input_requirements: &'static [(&'static str, &'static str)],
    output_requirements: &'static [(&'static str, &'static str)],
) -> bool {
    &&& d.base_tool@ == (ToolView {
        name: name,
        title: None,
        description: Some(description),
        input_schema: input,
        output_schema: output,
        extra: Seq::empty(),
    })
    &&& d.authorization is None
    &&& d.input_requirements == input_requirements
    &&& d.output_requirements == output_requirements
}

/// The position of the definition of the tool named `name`, if there is one.
pub open spec fn position_of(defs: Seq<AuthToolDef>, name: Seq<char>) -> Option<int> {
    if exists|i: int| 0 <= i < defs.len() && def_name(#[trigger] defs[i]) == name {
        Some(choose|i: int| 0 <= i < defs.len() && def_name(#[trigger] defs[i]) == name)
    } else {
        None
    }
}

/// The definitions after registering `def`: it replaces the definition of the
/// tool of the same name, in place, or else comes last.
pub open spec fn registered(defs: Seq<AuthToolDef>, def: AuthToolDef) -> Seq<AuthToolDef> {
    match position_of(defs, def_name(def)) {
        Some(i) => defs.update(i, def),
        None => defs.push(def),
    }
}

/// The definitions after gating the tool named `name` by `cap`; unchanged when
/// no tool has that name.
pub open spec fn with_gate(defs: Seq<AuthToolDef>, name: Seq<char>, cap: &'static str) -> Seq<AuthToolDef> {
    match position_of(defs, name) {
        Some(i) => defs.update(i, AuthToolDef { authorization: Some(cap), ..defs[i] }),
        None => defs,
    }
}

/// With distinct names, the position of a name is the index that has it.
pub proof fn lemma_position_of(defs: Seq<AuthToolDef>, name: Seq<char>, i: int)
    requires
        names_distinct(defs),
        0 <= i < defs.len(),
        def_name(defs[i]) == name,
    ensures
        position_of(defs, name) == Some(i),
{
    let j = choose|j: int| 0 <= j < defs.len() && def_name(#[trigger] defs[j]) == name;
    assert(def_name(defs[j]) == name);
}

/// Registry of tools with authorization metadata, in registration order,
/// one definition per tool name.
pub struct AuthToolRegistry {
    tools: Vec<AuthToolDef>,
}

impl AuthToolRegistry {
    #[verifier::type_invariant]
    spec fn distinct(&self) -> bool {
        names_distinct(self.tools@)
    }
}

impl View for AuthToolRegistry {
    type V = Seq<AuthToolDef>;

    closed spec fn view(&self) -> Seq<AuthToolDef> {
        self.tools@
    }
}

fn find_index(tools: &Vec<AuthToolDef>, name: &str) -> (r: Option<usize>)
    ensures
        match r {
            Some(i) => i < tools@.len() && def_name(tools@[i as int]) == name@,
            None => forall|i: int| 0 <= i < tools@.len() ==> def_name(#[trigger] tools@[i]) != name@,
        },
{
    let n = tools.len();
    for i in 0..n
        invariant
            n == tools@.len(),
            forall|j: int| 0 <= j < i ==> def_name(#[trigger] tools@[j]) != name@,
    {
        if str_eq(tools[i].base_tool.name.as_str(), name) {
            return Some(i);
        }
    }
    None
}

impl AuthToolRegistry {
    /// An empty registry.
    pub fn new() -> (r: AuthToolRegistry)
        ensures
            r@ == Seq::<AuthToolDef>::empty(),
    {
        AuthToolRegistry { tools: Vec::new() }
    }

    /// Registers a tool with its authorization metadata. A definition for a
    /// tool of the same name is replaced in place; otherwise the tool is
    /// appended.
    pub fn register(&mut self, def: AuthToolDef)
        ensures
            names_distinct(final(self)@),
            final(self)@ == registered(old(self)@, def),
    {
        proof {
            use_type_invariant(&*self);
        }
        let mut tools: Vec<AuthToolDef> = Vec::new();
        std::mem::swap(&mut tools, &mut self.tools);
        match find_index(&tools, def.base_tool.name.as_str()) {
            Some(i) => {
                proof {
                    lemma_position_of(tools@, def_name(def), i as int);
                }
                tools.set(i, def);
            },
            None => {
                tools.push(def);
            },
        }
        self.tools = tools;
    }

    /// Registers a tool from its schemas and requirement tables: the tool is
    /// `Tool::new(name, description, input_schema)`, with the output schema
    /// when there is one, and no tool-level gate.
    pub fn register_typed(
        &mut self,
        name: String,
        description: String,
        input_schema: JsonObject,
        output_schema: Option<JsonObject>,
        input_requirements: &'static [(&'static str, &'static str)],
        output_requirements: &'static [(&'static str, &'static str)],
    )
        ensures
            names_distinct(final(self)@),
            exists|d: AuthToolDef|
                {
                    &&& #[trigger] is_typed_def(
                        d,
                        name@,
                        description@,
                        object_view(input_schema),
                        opt_object_view(output_schema),
                        input_requirements,
                        output_requirements,
                    )
                    &&& final(self)@ == registered(old(self)@, d)
                },
    {
        let mut tool = Tool::new(name, description, input_schema);
        if let Some(output) = output_schema {
            tool = tool.with_raw_output_schema(output);
        }
        let def = AuthToolDef {
            base_tool: tool,
            authorization: None,
            input_requirements,
            output_requirements,
        };
        let ghost d = def;
        assert(is_typed_def(
            d,
            name@,
            description@,
            object_view(input_schema),
            opt_object_view(output_schema),
            input_requirements,
            output_requirements,
        ));
        self.register(def);
    }

    /// Sets the tool-level gate of the named tool; does nothing when no tool
    /// has that name.
    pub fn set_authorization(&mut self, tool_name: &str, capability: &'static str)
        ensures
            names_distinct(final(self)@),
            final(self)@ == with_gate(old(self)@, tool_name@, capability),
    {
        proof {
            use_type_invariant(&*self);
        }
        let mut tools: Vec<AuthToolDef> = Vec::new();
        std::mem::swap(&mut tools, &mut self.tools);
        if let Some(i) = find_index(&tools, tool_name) {
            proof {
                lemma_position_of(tools@, tool_name@, i as int);
            }
            let d = tools.remove(i);
            let updated = AuthToolDef { authorization: Some(capability), ..d };
            tools.insert(i, updated);
            assert(tools@ =~= old(self)@.update(i as int, updated));
        }
        self.tools = tools;
    }

    /// Whether the named tool is registered and visible to `auth`.
    pub fn is_visible(&self, tool_name: &str, auth: &AuthContext) -> (r: bool)
        ensures
            names_distinct(self@),
            r == exists|i: int|
                0 <= i < self@.len() && def_name(#[trigger] self@[i]) == tool_name@ && visible_to(
                    self@[i],
                    auth@,
                ),
    {
        proof {
            use_type_invariant(self);
        }
        match find_index(&self.tools, tool_name) {
            Some(i) => {
                assert(self@[i as int] == self.tools@[i as int]);
                proof {
                    if exists|j: int|
                        0 <= j < self@.len() && def_name(#[trigger] self@[j]) == tool_name@
                            && visible_to(self@[j], auth@) {
                        let j = choose|j: int|
                            0 <= j < self@.len() && def_name(#[trigger] self@[j]) == tool_name@
                                && visible_to(self@[j], auth@);
                        assert(j == i);
                    }
                }
                match self.tools[i].authorization {
                    Some(cap) => auth.has(cap),
                    None => true,
                }
            },
            None => false,
        }
    }

    /// The definition of the named tool, unshaped.
    pub fn get(&self, tool_name: &str) -> (r: Option<&AuthToolDef>)
        ensures
            names_distinct(self@),
            match r {
                Some(d) => exists|i: int|
                    0 <= i < self@.len() && def_name(#[trigger] self@[i]) == tool_name@ && *d
                        == self@[i],
                None => forall|i: int| 0 <= i < self@.len() ==> def_name(#[trigger] self@[i]) != tool_name@,
            },
    {
        proof {
            use_type_invariant(self);
        }
        match find_index(&self.tools, tool_name) {
            Some(i) => {
                assert(self@[i as int] == self.tools@[i as int]);
                Some(&self.tools[i])
            },
            None => None,
        }
    }

    /// The tools shown to a caller holding `auth`: the visible tools in
    /// registration order, with the fields and output variants whose
    /// capability `auth` lacks taken out of their schemas.
    pub fn materialize(&self, auth: &AuthContext) -> (r: Vec<Tool>)
        ensures
            names_distinct(self@),
            tool_views(r@) == materialized(self@, auth@),
    {
        proof {
            use_type_invariant(self);
        }
        let ghost a = auth@;
        let mut out: Vec<Tool> = Vec::new();
        let n = self.tools.len();
        for i in 0..n
            invariant
                n == self.tools@.len(),
                a == auth@,
                tool_views(out@) == materialized(self.tools@.take(i as int), a),
        {
            let ghost before = out@;
            let def = &self.tools[i];
            proof {
                assert(self.tools@.take(i + 1) =~= self.tools@.take(i as int).push(*def));
                self.tools@.take(i as int).lemma_filter_push(*def, visible_pred(a));
            }
            let visible = match def.authorization {
                Some(cap) => auth.has(cap),
                None => true,
            };
            if visible {
                let t = shape_tool(def, auth);
                out.push(t);
                assert(tool_views(out@) =~= tool_views(before).push(t@));
            }
        }
        assert(self.tools@.take(n as int) =~= self.tools@);
        out
    }
}

/// The tool of `def` shaped for a caller holding `auth`.
fn shape_tool(def: &AuthToolDef, auth: &AuthContext) -> (r: Tool)
    ensures
        r@ == shaped_tool(*def, auth@),
{
    let mut tool = def.base_tool.clone();
    if def.input_requirements.len() > 0 {
        let fields = unmet_targets_of(def.input_requirements, auth);
        if fields.len() > 0 {
            tool.input_schema = remove_properties(&tool.input_schema, fields.as_slice());
        } else {
            proof {
                assert(str_views(fields@) =~= Seq::<Seq<char>>::empty());
                lemma_strip_properties_none(object_view(tool.input_schema));
            }
        }
    } else {
        proof {
            assert(def.input_requirements@ =~= Seq::empty());
            lemma_strip_properties_none(object_view(tool.input_schema));
        }
    }
    if def.output_requirements.len() > 0 {
        let variants = unmet_targets_of(def.output_requirements, auth);
        if variants.len() > 0 {
            let shaped = match &tool.output_schema {
                Some(output) => Some(remove_variants(output, variants.as_slice())),
                None => None,
            };
            tool.output_schema = shaped;
        } else {
            proof {
                assert(str_views(variants@) =~= Seq::<Seq<char>>::empty());
                if tool.output_schema is Some {
                    lemma_strip_variants_none(object_view(tool.output_schema.unwrap()));
                }
            }
        }
    } else {
        proof {
            assert(def.output_requirements@ =~= Seq::empty());
            if tool.output_schema is Some {
                lemma_strip_variants_none(object_view(tool.output_schema.unwrap()));
            }
        }
    }
    tool
}

impl Default for AuthToolRegistry {
    fn default() -> (r: Self)
        ensures
            r@ == Seq::<AuthToolDef>::empty(),
    {
        Self::new()
    }
}


// ---------------------------------------------------------------------------
// Laws
// ---------------------------------------------------------------------------

/// Whether a tool named `name` is among `tools`.
pub open spec fn lists(tools: Seq<ToolView>, name: Seq<char>) -> bool {
    exists|j: int| 0 <= j < tools.len() && (#[trigger] tools[j]).name == name
}

/// Whether the tool named `name` is registered in `defs` and visible to `auth`.
pub open spec fn visible_in(defs: Seq<AuthToolDef>, name: Seq<char>, auth: Set<Seq<char>>) -> bool {
    exists|i: int| 0 <= i < defs.len() && def_name(#[trigger] defs[i]) == name && visible_to(defs[i], auth)
}

proof fn lemma_materialized_push(defs: Seq<AuthToolDef>, d: AuthToolDef, auth: Set<Seq<char>>)
    ensures
        materialized(defs.push(d), auth) == if visible_to(d, auth) {
            materialized(defs, auth).push(shaped_tool(d, auth))
        } else {
            materialized(defs, auth)
        },
{
    defs.lemma_filter_push(d, visible_pred(auth));
    if visible_to(d, auth) {
        defs.filter(visible_pred(auth)).lemma_push_map_commute(shaped_fn(auth), d);
    }
}

/// The tool list shows a tool exactly when the tool is registered and
/// visible: what `materialize` lists is what `is_visible` admits.
pub proof fn lemma_listed_iff_visible(defs: Seq<AuthToolDef>, auth: Set<Seq<char>>, name: Seq<char>)
    ensures
        lists(materialized(defs, auth), name) <==> visible_in(defs, name, auth),
    decreases defs.len(),
{
    if defs.len() == 0 {
        assert(materialized(defs, auth) =~= Seq::<ToolView>::empty()) by {
            reveal(Seq::filter);
        }
    } else {
        let d = defs.drop_last();
        let x = defs.last();
        assert(d.push(x) =~= defs);
        lemma_listed_iff_visible(d, auth, name);
        lemma_materialized_push(d, x, auth);
        let m = materialized(d, auth);
        if lists(materialized(defs, auth), name) {
            let j = choose|j: int| 0 <= j < materialized(defs, auth).len() && (#[trigger] materialized(defs, auth)[j]).name == name;
            if visible_to(x, auth) && j == m.len() {
                assert(defs[defs.len() - 1] == x);
            } else {
                assert(m[j] == materialized(defs, auth)[j]);
                let i = choose|i: int| 0 <= i < d.len() && def_name(#[trigger] d[i]) == name && visible_to(d[i], auth);
                assert(defs[i] == d[i]);
            }
        }
        if visible_in(defs, name, auth) {
            let i = choose|i: int| 0 <= i < defs.len() && def_name(#[trigger] defs[i]) == name && visible_to(defs[i], auth);
            if i == defs.len() - 1 {
                assert(materialized(defs, auth)[m.len() as int].name == name);
            } else {
                assert(d[i] == defs[i]);
                let j = choose|j: int| 0 <= j < m.len() && (#[trigger] m[j]).name == name;
                if visible_to(x, auth) {
                    assert(materialized(defs, auth)[j] == m[j]);
                }
            }
        }
    }
}

/// A caller with more capabilities is shown every tool that a caller with
/// fewer is shown.
pub proof fn lemma_more_capabilities_list_more(
    defs: Seq<AuthToolDef>,
    fewer: Set<Seq<char>>,
    more: Set<Seq<char>>,
    name: Seq<char>,
)
    requires
        fewer.subset_of(more),
        lists(materialized(defs, fewer), name),
    ensures
        lists(materialized(defs, more), name),
{
    lemma_listed_iff_visible(defs, fewer, name);
    lemma_listed_iff_visible(defs, more, name);
    let i = choose|i: int| 0 <= i < defs.len() && def_name(#[trigger] defs[i]) == name && visible_to(defs[i], fewer);
    assert(visible_to(defs[i], more));
}

/// A caller with no capabilities is shown exactly the tools without a
/// tool-level gate: the least-privileged view.
pub proof fn lemma_empty_context_lists_ungated(defs: Seq<AuthToolDef>, name: Seq<char>)
    ensures
        lists(materialized(defs, Set::empty()), name) <==> exists|i: int|
            0 <= i < defs.len() && def_name(#[trigger] defs[i]) == name && defs[i].authorization is None,
{
    lemma_listed_iff_visible(defs, Set::empty(), name);
}

/// After registering `def`, the definition under its name is `def`, names
/// stay distinct, and re-registering a name keeps the count and order.
pub proof fn lemma_register_then_lookup(defs: Seq<AuthToolDef>, def: AuthToolDef)
    requires
        names_distinct(defs),
    ensures
        names_distinct(registered(defs, def)),
        position_of(registered(defs, def), def_name(def)) matches Some(i) && registered(defs, def)[i] == def,
        position_of(defs, def_name(def)) is Some ==> registered(defs, def).len() == defs.len(),
        position_of(defs, def_name(def)) is None ==> registered(defs, def).len() == defs.len() + 1,
{
    let r = registered(defs, def);
    match position_of(defs, def_name(def)) {
        Some(i) => {
            assert(def_name(defs[i]) == def_name(def));
            assert forall|a: int, b: int| 0 <= a < r.len() && 0 <= b < r.len() && a != b implies def_name(#[trigger] r[a]) != def_name(#[trigger] r[b]) by {
                if a != i && b != i {
                    assert(r[a] == defs[a] && r[b] == defs[b]);
                } else if a == i {
                    assert(r[b] == defs[b]);
                } else {
                    assert(r[a] == defs[a]);
                }
            }
            lemma_position_of(r, def_name(def), i);
        },
        None => {
            assert forall|a: int, b: int| 0 <= a < r.len() && 0 <= b < r.len() && a != b implies def_name(#[trigger] r[a]) != def_name(#[trigger] r[b]) by {
                if a < defs.len() && b < defs.len() {
                    assert(r[a] == defs[a] && r[b] == defs[b]);
                } else if a == defs.len() {
                    assert(r[b] == defs[b]);
                } else {
                    assert(r[a] == defs[a]);
                }
            }
            lemma_position_of(r, def_name(def), defs.len() as int);
        },
    }
}

/// After gating a registered tool by `cap`, the tool is visible to a caller
/// exactly when the caller holds `cap`; the visibility of every other tool
/// is unchanged, and gating an unknown name changes nothing.
pub proof fn lemma_gate_decides_visibility(
    defs: Seq<AuthToolDef>,
    name: Seq<char>,
    cap: &'static str,
    auth: Set<Seq<char>>,
    other: Seq<char>,
)
    requires
        names_distinct(defs),
    ensures
        position_of(defs, name) is Some ==> (visible_in(with_gate(defs, name, cap), name, auth)
            <==> auth.contains(cap@)),
        other != name ==> (visible_in(with_gate(defs, name, cap), other, auth) <==> visible_in(
            defs,
            other,
            auth,
        )),
        position_of(defs, name) is None ==> with_gate(defs, name, cap) == defs,
{
    let g = with_gate(defs, name, cap);
    if let Some(i) = position_of(defs, name) {
        assert(def_name(defs[i]) == name);
        assert(def_name(g[i]) == name);
        if visible_in(g, name, auth) {
            let k = choose|k: int| 0 <= k < g.len() && def_name(#[trigger] g[k]) == name && visible_to(g[k], auth);
            if k != i {
                assert(g[k] == defs[k]);
            }
        }
        if other != name {
            if visible_in(g, other, auth) {
                let k = choose|k: int| 0 <= k < g.len() && def_name(#[trigger] g[k]) == other && visible_to(g[k], auth);
                assert(g[k] == defs[k]);
            }
            if visible_in(defs, other, auth) {
                let k = choose|k: int| 0 <= k < defs.len() && def_name(#[trigger] defs[k]) == other && visible_to(defs[k], auth);
                assert(g[k] == defs[k]);
            }
        }
    }
}


/// Whether `auth` holds every capability that `d` mentions: its tool-level
/// gate and the capabilities of its field and variant requirements.
pub open spec fn holds_all_of(auth: Set<Seq<char>>, d: AuthToolDef) -> bool {
    &&& visible_to(d, auth)
    &&& forall|r: int| 0 <= r < d.input_requirements@.len() ==> auth.contains(#[trigger] d.input_requirements@[r].1@)
    &&& forall|r: int| 0 <= r < d.output_requirements@.len() ==> auth.contains(#[trigger] d.output_requirements@[r].1@)
}

/// A caller holding every capability that the registry mentions is shown
/// every tool, in registration order, with its full schemas.
pub proof fn lemma_full_privileges_see_full_tools(defs: Seq<AuthToolDef>, auth: Set<Seq<char>>)
    requires
        forall|i: int| 0 <= i < defs.len() ==> holds_all_of(auth, #[trigger] defs[i]),
    ensures
        materialized(defs, auth) == defs.map_values(|d: AuthToolDef| d.base_tool@),
{
    assert forall|i: int| 0 <= i < defs.len() implies (#[trigger] visible_pred(auth)(defs[i])) by {
        assert(holds_all_of(auth, defs[i]));
    }
    crate::schema::lemma_filter_keeps_all(defs, visible_pred(auth));
    assert forall|i: int| 0 <= i < defs.len() implies #[trigger] shaped_tool(defs[i], auth) == defs[i].base_tool@ by {
        let d = defs[i];
        assert(holds_all_of(auth, d));
        crate::schema::lemma_unmet_targets_empty(d.input_requirements@, auth);
        crate::schema::lemma_unmet_targets_empty(d.output_requirements@, auth);
        lemma_strip_properties_none(d.base_tool@.input_schema);
        if d.base_tool@.output_schema is Some {
            lemma_strip_variants_none(d.base_tool@.output_schema.unwrap());
        }
    }
    assert(materialized(defs, auth) =~= defs.map_values(|d: AuthToolDef| d.base_tool@));
}

/// A listed tool's input schema: its top-level `properties` object keeps a
/// field exactly when the registered schema has it and no requirement on it
/// is unmet. Its output schema: a `oneOf` or `anyOf` list keeps a member
/// exactly when it was there and is not a variant whose name is gated out.
pub proof fn lemma_listed_tool_hides_gated_parts(
    d: AuthToolDef,
    auth: Set<Seq<char>>,
    i: int,
    k: Seq<char>,
    x: JsonValue,
)
    ensures
        ({
            let full = d.base_tool@.input_schema;
            let shown = shaped_tool(d, auth).input_schema;
            0 <= i < full.len() && full[i].0 == "properties"@ && full[i].1 is Object ==> {
                &&& shown[i].1 is Object
                &&& (crate::schema::has_key(crate::schema::entries_of(shown[i].1), k) <==> crate::schema::has_key(
                    crate::schema::entries_of(full[i].1),
                    k,
                ) && !crate::schema::gated_out(d.input_requirements@, auth, k))
            }
        }),
        ({
            let shown = shaped_tool(d, auth).output_schema;
            d.base_tool@.output_schema matches Some(full) ==> {
                0 <= i < full.len() && crate::schema::is_variant_list_key(full[i].0) && full[i].1 is Array ==> {
                    &&& shown is Some
                    &&& shown.unwrap()[i].1 is Array
                    &&& (crate::schema::items_of(shown.unwrap()[i].1).contains(x) <==> crate::schema::items_of(
                        full[i].1,
                    ).contains(x) && !crate::schema::variant_gated_out(d.output_requirements@, auth, x))
                }
            }
        }),
{
    let full = d.base_tool@.input_schema;
    if 0 <= i < full.len() {
        crate::schema::lemma_shape_input_hides_gated_fields(full, d.input_requirements@, auth, i, k, x);
    }
    if let Some(fo) = d.base_tool@.output_schema {
        if 0 <= i < fo.len() {
            crate::schema::lemma_shape_output_hides_gated_variants(fo, d.output_requirements@, auth, i, k, x);
        }
    }
}


/// The definitions whose tools a caller holding `auth` is shown, in
/// registration order.
pub open spec fn listed_defs(defs: Seq<AuthToolDef>, auth: Set<Seq<char>>) -> Seq<AuthToolDef> {
    defs.filter(visible_pred(auth))
}

/// More capabilities never hide more: the tools listed to a caller with
/// fewer capabilities are those listed to a caller with more, in the same
/// order, less some; and the shown list is that selection, shaped.
pub proof fn lemma_more_capabilities_keep_order(defs: Seq<AuthToolDef>, fewer: Set<Seq<char>>, more: Set<Seq<char>>)
    requires
        fewer.subset_of(more),
    ensures
        listed_defs(defs, fewer) == listed_defs(defs, more).filter(visible_pred(fewer)),
        materialized(defs, fewer) == listed_defs(defs, more).filter(visible_pred(fewer)).map_values(
            shaped_fn(fewer),
        ),
{
    assert forall|d: AuthToolDef| #[trigger] visible_pred(fewer)(d) == (visible_pred(more)(d) && visible_pred(
        fewer,
    )(d)) by {
        if visible_to(d, fewer) {
            assert(visible_to(d, more));
        }
    }
    crate::schema::lemma_filter_filter(defs, visible_pred(more), visible_pred(fewer), visible_pred(fewer));
}

/// More capabilities never hide more of a tool's schemas: a field of the
/// input schema's top-level `properties`, and a member of an output schema's
/// `oneOf` or `anyOf` list, that a caller with fewer capabilities is shown,
/// a caller with more is shown too.
pub proof fn lemma_more_capabilities_show_more_schema(
    d: AuthToolDef,
    fewer: Set<Seq<char>>,
    more: Set<Seq<char>>,
    i: int,
    k: Seq<char>,
    x: JsonValue,
)
    requires
        fewer.subset_of(more),
    ensures
        ({
            let full = d.base_tool@.input_schema;
            0 <= i < full.len() && full[i].0 == "properties"@ && full[i].1 is Object
                && crate::schema::has_key(crate::schema::entries_of(shaped_tool(d, fewer).input_schema[i].1), k)
                ==> crate::schema::has_key(crate::schema::entries_of(shaped_tool(d, more).input_schema[i].1), k)
        }),
        ({
            d.base_tool@.output_schema matches Some(full) ==> (0 <= i < full.len()
                && crate::schema::is_variant_list_key(full[i].0) && full[i].1 is Array
                && crate::schema::items_of(shaped_tool(d, fewer).output_schema.unwrap()[i].1).contains(x)
                ==> crate::schema::items_of(shaped_tool(d, more).output_schema.unwrap()[i].1).contains(x))
        }),
{
    lemma_listed_tool_hides_gated_parts(d, fewer, i, k, x);
    lemma_listed_tool_hides_gated_parts(d, more, i, k, x);
    let ri = d.input_requirements@;
    if crate::schema::gated_out(ri, more, k) {
        let r = choose|r: int| 0 <= r < ri.len() && (#[trigger] ri[r]).0@ == k && !more.contains(ri[r].1@);
        assert(!fewer.contains(ri[r].1@));
    }
    let ro = d.output_requirements@;
    if let Some(n) = crate::schema::variant_name(x) {
        if crate::schema::gated_out(ro, more, n) {
            let r = choose|r: int| 0 <= r < ro.len() && (#[trigger] ro[r]).0@ == n && !more.contains(ro[r].1@);
            assert(!fewer.contains(ro[r].1@));
        }
    }
}


/// Gating a tool changes nothing but its gate: every definition keeps its
/// tool and its two requirement tables, the named tool's gate becomes `cap`,
/// and every other tool keeps its gate.
pub proof fn lemma_gate_changes_only_gate(defs: Seq<AuthToolDef>, name: Seq<char>, cap: &'static str)
    requires
        names_distinct(defs),
    ensures
        with_gate(defs, name, cap).len() == defs.len(),
        forall|i: int|
            0 <= i < defs.len() ==> {
                let g = #[trigger] with_gate(defs, name, cap)[i];
                &&& g.base_tool == defs[i].base_tool
                &&& g.input_requirements == defs[i].input_requirements
                &&& g.output_requirements == defs[i].output_requirements
                &&& g.authorization == if def_name(defs[i]) == name {
                    Some(cap)
                } else {
                    defs[i].authorization
                }
            },
{
    if let Some(p) = position_of(defs, name) {
        assert(def_name(defs[p]) == name);
        assert forall|i: int| 0 <= i < defs.len() && def_name(defs[i]) == name implies i == p by {
            if i != p {
                assert(def_name(defs[i]) != def_name(defs[p]));
            }
        }
    } else {
        assert forall|i: int| 0 <= i < defs.len() implies def_name(defs[i]) != name by {
            if def_name(defs[i]) == name {
                assert(exists|j: int| 0 <= j < defs.len() && def_name(#[trigger] defs[j]) == name);
            }
        }
    }
}

/// A listed tool differs from its registered tool only in its schemas: it
/// has the registered name, title, description and other fields, whatever
/// the caller holds.
pub proof fn lemma_listed_tool_keeps_identity(d: AuthToolDef, auth: Set<Seq<char>>)
    ensures
        shaped_tool(d, auth).name == d.base_tool@.name,
        shaped_tool(d, auth).title == d.base_tool@.title,
        shaped_tool(d, auth).description == d.base_tool@.description,
        shaped_tool(d, auth).extra == d.base_tool@.extra,
        shaped_tool(d, auth).output_schema is Some <==> d.base_tool@.output_schema is Some,
{
}

/// Registering a tool from its schemas stores exactly the requirement tables
/// given, with or without an output schema: after `register_typed`, the
/// definition under the tool's name is ungated and holds the given name,
/// description, schemas and tables.
pub proof fn lemma_register_typed_keeps_tables(
    defs: Seq<AuthToolDef>,
    d: AuthToolDef,
    name: Seq<char>,
    description: Seq<char>,
    input: Seq<(Seq<char>, JsonValue)>,
    output: Option<Seq<(Seq<char>, JsonValue)>>,
    input_requirements: &'static [(&'static str, &'static str)],
    output_requirements: &'static [(&'static str, &'static str)],
)
    requires
        names_distinct(defs),
        is_typed_def(d, name, description, input, output, input_requirements, output_requirements),
    ensures
        position_of(registered(defs, d), name) matches Some(i) && {
            let r = registered(defs, d)[i];
            &&& r.input_requirements == input_requirements
            &&& r.output_requirements == output_requirements
            &&& r.authorization is None
            &&& r.base_tool@.name == name
            &&& r.base_tool@.description == Some(description)
            &&& r.base_tool@.input_schema == input
            &&& r.base_tool@.output_schema == output
        },
{
    lemma_register_then_lookup(defs, d);
}

}
