//! The identity of a plan: its canonical JSON document and the digest of it.

use vstd::prelude::*;

use crate::error::{outcome, Error, ErrorView, Result};
use crate::outside::{
    distinct_names, json_bytes, json_fields, json_list, json_model, json_models, json_number,
    json_record, json_text, json_to_vec, sha256, sha256_digest, JsonView,
};
use crate::planner::plan::{
    ActionView, ClosurePlan, CountsView, DependencyView, DerivationClass, DerivationPlan,
    DerivationView, OutputAction, PlanCounts, PlanDependency, PlanRoot, PlanView, ProbeResult,
    ProbeView, RealizationRoute, RootView, RouteView,
};
use crate::text;

verus! {

// ---------------------------------------------------------------------------
// Records
// ---------------------------------------------------------------------------

/// A field that a record may have: its name, and its value when it is there.
pub type Slot = (Seq<char>, Option<JsonView>);

/// The fields that are there, in order.
pub open spec fn kept(slots: Seq<Slot>) -> Seq<(Seq<char>, JsonView)>
    decreases slots.len(),
{
    if slots.len() == 0 {
        Seq::empty()
    } else {
        match slots.last().1 {
            Some(value) => kept(slots.drop_last()).push((slots.last().0, value)),
            None => kept(slots.drop_last()),
        }
    }
}

/// The record with the fields that are there.
pub open spec fn record(slots: Seq<Slot>) -> JsonView {
    JsonView::Record(kept(slots))
}

/// The names of fields.
pub open spec fn slot_names(slots: Seq<Slot>) -> Seq<Seq<char>> {
    slots.map_values(|slot: Slot| slot.0)
}

/// Every field that is there has the name of one of the slots.
proof fn lemma_kept_names(slots: Seq<Slot>)
    ensures
        forall|i: int|
            0 <= i < kept(slots).len() ==> slot_names(slots).contains((#[trigger] kept(slots)[i]).0),
    decreases slots.len(),
{
    if slots.len() > 0 {
        let rest = slots.drop_last();
        lemma_kept_names(rest);
        let names = slot_names(slots);
        assert(names[slots.len() - 1] == slots.last().0);
        assert forall|i: int| 0 <= i < kept(slots).len() implies names.contains(
            (#[trigger] kept(slots)[i]).0,
        ) by {
            if i < kept(rest).len() {
                assert(kept(slots)[i] == kept(rest)[i]);
                let k = slot_names(rest).index_of(kept(rest)[i].0);
                assert(names[k] == kept(rest)[i].0);
            }
        }
    }
}

/// Slots with different names give a record without a repeated name.
proof fn lemma_kept_distinct(slots: Seq<Slot>)
    requires
        slot_names(slots).no_duplicates(),
    ensures
        distinct_names(kept(slots)),
    decreases slots.len(),
{
    if slots.len() > 0 {
        let rest = slots.drop_last();
        let names = slot_names(slots);
        assert(slot_names(rest) =~= names.drop_last());
        lemma_kept_distinct(rest);
        lemma_kept_names(rest);
        let fields = kept(slots);
        assert forall|i: int, j: int| 0 <= i < j < fields.len() implies (#[trigger] fields[i]).0
            != (#[trigger] fields[j]).0 by {
            assert(fields[i] == kept(rest)[i]);
            if j < kept(rest).len() {
                assert(fields[j] == kept(rest)[j]);
            } else {
                let k = slot_names(rest).index_of(kept(rest)[i].0);
                assert(names[k] == fields[i].0);
                assert(names[slots.len() - 1] == slots.last().0);
            }
        }
    }
}

/// Two records over the same names have the same fields only if the same
/// fields are there, with the same values.
proof fn lemma_kept_injective(left: Seq<Slot>, right: Seq<Slot>)
    requires
        slot_names(left) == slot_names(right),
        slot_names(left).no_duplicates(),
        kept(left) == kept(right),
    ensures
        left == right,
    decreases left.len(),
{
    let names = slot_names(left);
    assert(names.len() == left.len());
    assert(slot_names(right).len() == right.len());
    if left.len() > 0 {
        let n = left.len() - 1;
        assert(names[n] == left.last().0);
        assert(slot_names(right)[n] == right.last().0);
        let l = left.drop_last();
        let r = right.drop_last();
        assert(slot_names(l) =~= names.drop_last());
        assert(slot_names(r) =~= names.drop_last());
        lemma_kept_names(l);
        lemma_kept_names(r);
        assert(left.last().1 == right.last().1) by {
            if left.last().1 is Some && right.last().1 is None {
                let field = kept(left).last();
                assert(field == kept(r)[kept(r).len() - 1]);
                let k = slot_names(r).index_of(field.0);
                assert(names[k] == names[n]);
            } else if left.last().1 is None && right.last().1 is Some {
                let field = kept(right).last();
                assert(field == kept(l)[kept(l).len() - 1]);
                let k = slot_names(l).index_of(field.0);
                assert(names[k] == names[n]);
            } else if left.last().1 is Some {
                assert(kept(left).last() == kept(right).last());
            }
        }
        assert(kept(l) == kept(r)) by {
            if left.last().1 is Some {
                assert(kept(left).drop_last() =~= kept(l));
                assert(kept(right).drop_last() =~= kept(r));
            }
        }
        lemma_kept_injective(l, r);
        assert(left =~= l.push(left.last()));
        assert(right =~= r.push(right.last()));
    } else {
        assert(left =~= right);
    }
}

/// Adds a field to a record that is being built.
fn put(fields: &mut Vec<(String, serde_json::Value)>, name: &str, value: serde_json::Value)
    ensures
        json_fields(final(fields)@) == json_fields(old(fields)@).push((name@, json_model(value))),
{
    let ghost before = json_fields(fields@);
    fields.push((name.to_owned(), value));
    assert(json_fields(fields@) =~= before.push((name@, json_model(value))));
}

// ---------------------------------------------------------------------------
// Documents
// ---------------------------------------------------------------------------

/// The document of a list of texts.
pub open spec fn texts_document(items: Seq<Seq<char>>) -> JsonView {
    JsonView::List(items.map_values(|item: Seq<char>| JsonView::Text(item)))
}

/// The document of a variant with one field.
pub open spec fn tagged(tag: Seq<char>, name: Seq<char>, value: JsonView) -> JsonView {
    JsonView::Record(seq![(tag, JsonView::Record(seq![(name, value)]))])
}

/// The document of a probe result.
pub open spec fn probe_document(probe: ProbeView) -> JsonView {
    match probe {
        ProbeView::Present { substituter } => tagged(
            "present"@,
            "substituter"@,
            JsonView::Text(substituter),
        ),
        ProbeView::LocalPresent => JsonView::Text("local-present"@),
        ProbeView::Missing => JsonView::Text("missing"@),
        ProbeView::Indeterminate { errors } => tagged(
            "indeterminate"@,
            "errors"@,
            texts_document(errors),
        ),
        ProbeView::SkippedKnownLocal => JsonView::Text("skipped-known-local"@),
    }
}

/// The document of a route.
pub open spec fn route_document(route: RouteView) -> JsonView {
    match route {
        RouteView::Substitute { substituter } => tagged(
            "substitute"@,
            "substituter"@,
            JsonView::Text(substituter),
        ),
        RouteView::AlreadyPresent => JsonView::Text("already-present"@),
        RouteView::BuildLocal => JsonView::Text("build-local"@),
        RouteView::RemoteNative { builders } => tagged(
            "remote-native"@,
            "builders"@,
            texts_document(builders),
        ),
        RouteView::Fail { reason } => tagged("fail"@, "reason"@, JsonView::Text(reason)),
    }
}

/// The name of a class in a plan document.
pub open spec fn class_name(class: DerivationClass) -> Seq<char> {
    match class {
        DerivationClass::LocalPresent => "local-present"@,
        DerivationClass::HostSubstituted => "host-substituted"@,
        DerivationClass::BuildLocal => "build-local"@,
        DerivationClass::HostRemote => "host-remote"@,
        DerivationClass::Unhandled => "unhandled"@,
    }
}

/// The fields of an action.
pub open spec fn action_slots(action: ActionView) -> Seq<Slot> {
    seq![
        ("output"@, Some(JsonView::Text(action.output))),
        ("path"@, Some(JsonView::Text(action.path))),
        ("probe"@, Some(probe_document(action.probe))),
        ("route"@, Some(route_document(action.route))),
    ]
}

/// The fields of a derivation with some outputs: a root or a dependency.
pub open spec fn outputs_slots(drv: Seq<char>, outputs: Seq<Seq<char>>) -> Seq<Slot> {
    seq![
        ("drv"@, Some(JsonView::Text(drv))),
        ("outputs"@, Some(texts_document(outputs))),
    ]
}

/// The document of a text that may be absent.
pub open spec fn text_slot(value: Option<Seq<char>>) -> Option<JsonView> {
    match value {
        Some(value) => Some(JsonView::Text(value)),
        None => None,
    }
}

/// The document of a list, absent when the list is empty.
pub open spec fn list_slot(items: Seq<JsonView>) -> Option<JsonView> {
    if items.len() == 0 {
        None
    } else {
        Some(JsonView::List(items))
    }
}

/// The documents of actions.
pub open spec fn action_documents(actions: Seq<ActionView>) -> Seq<JsonView> {
    actions.map_values(|action: ActionView| record(action_slots(action)))
}

/// The documents of dependencies.
pub open spec fn dependency_documents(dependencies: Seq<DependencyView>) -> Seq<JsonView> {
    dependencies.map_values(
        |dependency: DependencyView| record(outputs_slots(dependency.drv, dependency.outputs)),
    )
}

/// The documents of roots.
pub open spec fn root_documents(roots: Seq<RootView>) -> Seq<JsonView> {
    roots.map_values(|root: RootView| record(outputs_slots(root.drv, root.outputs)))
}

/// The documents of texts.
pub open spec fn text_documents(items: Seq<Seq<char>>) -> Seq<JsonView> {
    items.map_values(|item: Seq<char>| JsonView::Text(item))
}

/// The fields of a derivation plan. Optional texts and empty lists are left
/// out, and so is the route that fails without a reason.
pub open spec fn derivation_slots(plan: DerivationView) -> Seq<Slot> {
    seq![
        ("drv"@, Some(JsonView::Text(plan.drv))),
        ("name"@, text_slot(plan.name)),
        ("pname"@, text_slot(plan.pname)),
        ("output_names"@, list_slot(text_documents(plan.output_names))),
        ("outputs"@, Some(texts_document(plan.outputs))),
        ("system"@, Some(JsonView::Text(plan.system))),
        ("class"@, Some(JsonView::Text(class_name(plan.class)))),
        (
            "route"@,
            if plan.route == (RouteView::Fail { reason: Seq::empty() }) {
                None
            } else {
                Some(route_document(plan.route))
            },
        ),
        ("hint"@, text_slot(plan.hint)),
        (
            "probe"@,
            match plan.probe {
                Some(probe) => Some(probe_document(probe)),
                None => None,
            },
        ),
        ("actions"@, list_slot(action_documents(plan.actions))),
        ("dependencies"@, list_slot(dependency_documents(plan.dependencies))),
    ]
}

/// The documents of derivation plans.
pub open spec fn derivation_documents(plans: Seq<DerivationView>) -> Seq<JsonView> {
    plans.map_values(|plan: DerivationView| record(derivation_slots(plan)))
}

/// The document of a number.
pub open spec fn number_document(number: nat) -> JsonView {
    JsonView::Number(text::decimal(number))
}

/// The fields of the counts.
pub open spec fn counts_slots(counts: CountsView) -> Seq<Slot> {
    seq![
        ("host_substituted"@, Some(number_document(counts.host_substituted))),
        ("local_present"@, Some(number_document(counts.local_present))),
        ("build_local"@, Some(number_document(counts.build_local))),
        ("host_remote"@, Some(number_document(counts.host_remote))),
        ("unhandled"@, Some(number_document(counts.unhandled))),
    ]
}

/// The fields of the canonical plan document: everything but the identifier.
pub open spec fn plan_slots(plan: PlanView) -> Seq<Slot> {
    seq![
        ("schema_version"@, Some(number_document(plan.schema_version as nat))),
        ("toplevel_installable"@, Some(JsonView::Text(plan.toplevel_installable))),
        ("flake_installable"@, Some(JsonView::Text(plan.flake_installable))),
        ("build_system"@, Some(JsonView::Text(plan.build_system))),
        ("host_system"@, Some(JsonView::Text(plan.host_system))),
        ("roots"@, Some(JsonView::List(root_documents(plan.roots)))),
        ("derivations"@, Some(JsonView::List(derivation_documents(plan.derivations)))),
        ("counts"@, Some(record(counts_slots(plan.counts)))),
    ]
}

/// The canonical plan document.
pub open spec fn plan_document(plan: PlanView) -> JsonView {
    record(plan_slots(plan))
}

/// A lower-case hexadecimal digit.
pub open spec fn hex_digit(value: int) -> char {
    if value < 10 {
        (48 + value) as char
    } else {
        (87 + value) as char
    }
}

/// Bytes in lower-case hexadecimal, two digits each.
pub open spec fn hex(bytes: Seq<u8>) -> Seq<char>
    decreases bytes.len(),
{
    if bytes.len() == 0 {
        Seq::empty()
    } else {
        hex(bytes.drop_last()).push(hex_digit(bytes.last() as int / 16)).push(
            hex_digit(bytes.last() as int % 16),
        )
    }
}

/// The stable name of some bytes.
pub open spec fn digest_name(bytes: Seq<u8>) -> Seq<char> {
    "sha256-"@ + hex(sha256(bytes))
}

/// The character is a digit or one of the letters `a` to `f`.
pub open spec fn is_hex(c: char) -> bool {
    '0' <= c <= '9' || 'a' <= c <= 'f'
}

/// The text is a digest name: `sha256-` and the 64 hexadecimal digits of a
/// digest.
pub open spec fn is_digest_name(name: Seq<char>) -> bool {
    &&& name.len() == 71
    &&& "sha256-"@.is_prefix_of(name)
    &&& forall|i: int| 7 <= i < name.len() ==> is_hex(#[trigger] name[i])
}

/// Two different strings of bytes have one SHA-256 digest.
pub open spec fn collide(left: Seq<u8>, right: Seq<u8>) -> bool {
    left != right && sha256(left) == sha256(right)
}

/// The identifier of a plan's canonical content.
pub open spec fn plan_id_of(plan: PlanView) -> Seq<char> {
    digest_name(json_bytes(plan_document(plan)))
}

/// What a plan says, apart from its identifier.
pub open spec fn content(plan: PlanView) -> PlanView {
    PlanView { plan_id: Seq::empty(), ..plan }
}

// ---------------------------------------------------------------------------
// The document determines the content
// ---------------------------------------------------------------------------

proof fn lemma_action_names(action: ActionView)
    ensures
        slot_names(action_slots(action)) == seq!["output"@, "path"@, "probe"@, "route"@],
        slot_names(action_slots(action)).no_duplicates(),
{
    reveal_strlit("output");
    reveal_strlit("path");
    reveal_strlit("probe");
    reveal_strlit("route");
    assert("output"@.len() == 6);
    assert("path"@.len() == 4);
    assert("probe"@.len() == 5);
    assert("probe"@[0] == 'p');
    assert("route"@.len() == 5);
    assert("route"@[0] == 'r');
    assert(slot_names(action_slots(action)) =~= seq!["output"@, "path"@, "probe"@, "route"@]);
}

proof fn lemma_outputs_names(drv: Seq<char>, outputs: Seq<Seq<char>>)
    ensures
        slot_names(outputs_slots(drv, outputs)) == seq!["drv"@, "outputs"@],
        slot_names(outputs_slots(drv, outputs)).no_duplicates(),
{
    reveal_strlit("drv");
    reveal_strlit("outputs");
    assert("drv"@.len() == 3);
    assert("outputs"@.len() == 7);
    assert(slot_names(outputs_slots(drv, outputs)) =~= seq!["drv"@, "outputs"@]);
}

/// The names of a derivation's fields.
spec fn derivation_names() -> Seq<Seq<char>> {
    seq![
        "drv"@,
        "name"@,
        "pname"@,
        "output_names"@,
        "outputs"@,
        "system"@,
        "class"@,
        "route"@,
        "hint"@,
        "probe"@,
        "actions"@,
        "dependencies"@,
    ]
}

proof fn lemma_derivation_names(plan: DerivationView)
    ensures
        slot_names(derivation_slots(plan)) == derivation_names(),
        slot_names(derivation_slots(plan)).no_duplicates(),
{
    reveal_strlit("drv");
    reveal_strlit("name");
    reveal_strlit("pname");
    reveal_strlit("output_names");
    reveal_strlit("outputs");
    reveal_strlit("system");
    reveal_strlit("class");
    reveal_strlit("route");
    reveal_strlit("hint");
    reveal_strlit("probe");
    reveal_strlit("actions");
    reveal_strlit("dependencies");
    assert("drv"@.len() == 3);
    assert("name"@.len() == 4);
    assert("name"@[0] == 'n');
    assert("hint"@.len() == 4);
    assert("hint"@[0] == 'h');
    assert("pname"@.len() == 5);
    assert("pname"@[1] == 'n');
    assert("class"@.len() == 5);
    assert("class"@[1] == 'l');
    assert("route"@.len() == 5);
    assert("route"@[1] == 'o');
    assert("probe"@.len() == 5);
    assert("probe"@[1] == 'r');
    assert("output_names"@.len() == 12);
    assert("output_names"@[0] == 'o');
    assert("dependencies"@.len() == 12);
    assert("dependencies"@[0] == 'd');
    assert("outputs"@.len() == 7);
    assert("outputs"@[0] == 'o');
    assert("actions"@.len() == 7);
    assert("actions"@[0] == 'a');
    assert("system"@.len() == 6);
    assert(slot_names(derivation_slots(plan)) =~= derivation_names());
}

proof fn lemma_counts_names(counts: CountsView)
    ensures
        slot_names(counts_slots(counts)) == seq![
            "host_substituted"@,
            "local_present"@,
            "build_local"@,
            "host_remote"@,
            "unhandled"@,
        ],
        slot_names(counts_slots(counts)).no_duplicates(),
{
    reveal_strlit("host_substituted");
    reveal_strlit("local_present");
    reveal_strlit("build_local");
    reveal_strlit("host_remote");
    reveal_strlit("unhandled");
    assert("host_substituted"@.len() == 16);
    assert("local_present"@.len() == 13);
    assert("build_local"@.len() == 11);
    assert("build_local"@[0] == 'b');
    assert("host_remote"@.len() == 11);
    assert("host_remote"@[0] == 'h');
    assert("unhandled"@.len() == 9);
    assert(slot_names(counts_slots(counts)) =~= seq![
        "host_substituted"@,
        "local_present"@,
        "build_local"@,
        "host_remote"@,
        "unhandled"@,
    ]);
}

/// The names of a plan's fields.
spec fn plan_names() -> Seq<Seq<char>> {
    seq![
        "schema_version"@,
        "toplevel_installable"@,
        "flake_installable"@,
        "build_system"@,
        "host_system"@,
        "roots"@,
        "derivations"@,
        "counts"@,
    ]
}

proof fn lemma_plan_names(plan: PlanView)
    ensures
        slot_names(plan_slots(plan)) == plan_names(),
        slot_names(plan_slots(plan)).no_duplicates(),
{
    reveal_strlit("schema_version");
    reveal_strlit("toplevel_installable");
    reveal_strlit("flake_installable");
    reveal_strlit("build_system");
    reveal_strlit("host_system");
    reveal_strlit("roots");
    reveal_strlit("derivations");
    reveal_strlit("counts");
    assert("schema_version"@.len() == 14);
    assert("toplevel_installable"@.len() == 20);
    assert("flake_installable"@.len() == 17);
    assert("build_system"@.len() == 12);
    assert("host_system"@.len() == 11);
    assert("host_system"@[0] == 'h');
    assert("roots"@.len() == 5);
    assert("derivations"@.len() == 11);
    assert("derivations"@[0] == 'd');
    assert("counts"@.len() == 6);
    assert(slot_names(plan_slots(plan)) =~= plan_names());
}

proof fn lemma_texts_injective(left: Seq<Seq<char>>, right: Seq<Seq<char>>)
    requires
        text_documents(left) == text_documents(right),
    ensures
        left == right,
{
    assert(left.len() == text_documents(left).len());
    assert(right.len() == text_documents(right).len());
    assert forall|i: int| 0 <= i < left.len() implies left[i] == right[i] by {
        assert(text_documents(left)[i] == JsonView::Text(left[i]));
        assert(text_documents(right)[i] == JsonView::Text(right[i]));
    }
    assert(left =~= right);
}

proof fn lemma_tagged_injective(
    tag: Seq<char>,
    name: Seq<char>,
    left: JsonView,
    other_tag: Seq<char>,
    other_name: Seq<char>,
    right: JsonView,
)
    requires
        tagged(tag, name, left) == tagged(other_tag, other_name, right),
    ensures
        tag == other_tag,
        name == other_name,
        left == right,
{
    let inner = seq![(name, left)];
    let other_inner = seq![(other_name, right)];
    let outer = seq![(tag, JsonView::Record(inner))];
    let other_outer = seq![(other_tag, JsonView::Record(other_inner))];
    assert(tagged(tag, name, left) == JsonView::Record(outer));
    assert(tagged(other_tag, other_name, right) == JsonView::Record(other_outer));
    assert(outer == other_outer);
    assert(outer[0] == other_outer[0]);
    assert(inner == other_inner);
    assert(inner[0] == other_inner[0]);
}

proof fn lemma_probe_injective(left: ProbeView, right: ProbeView)
    requires
        probe_document(left) == probe_document(right),
    ensures
        left == right,
{
    reveal_strlit("present");
    reveal_strlit("indeterminate");
    reveal_strlit("local-present");
    reveal_strlit("missing");
    reveal_strlit("skipped-known-local");
    assert("present"@.len() == 7);
    assert("indeterminate"@.len() == 13);
    assert("local-present"@.len() == 13);
    assert("missing"@.len() == 7);
    assert("skipped-known-local"@.len() == 19);
    match (left, right) {
        (ProbeView::Present { substituter: a }, ProbeView::Present { substituter: b }) => {
            lemma_tagged_injective(
                "present"@,
                "substituter"@,
                JsonView::Text(a),
                "present"@,
                "substituter"@,
                JsonView::Text(b),
            );
        },
        (ProbeView::Indeterminate { errors: a }, ProbeView::Indeterminate { errors: b }) => {
            lemma_tagged_injective(
                "indeterminate"@,
                "errors"@,
                texts_document(a),
                "indeterminate"@,
                "errors"@,
                texts_document(b),
            );
            lemma_texts_injective(a, b);
        },
        (ProbeView::Present { substituter: a }, ProbeView::Indeterminate { errors: b }) => {
            lemma_tagged_injective(
                "present"@,
                "substituter"@,
                JsonView::Text(a),
                "indeterminate"@,
                "errors"@,
                texts_document(b),
            );
        },
        (ProbeView::Indeterminate { errors: a }, ProbeView::Present { substituter: b }) => {
            lemma_tagged_injective(
                "indeterminate"@,
                "errors"@,
                texts_document(a),
                "present"@,
                "substituter"@,
                JsonView::Text(b),
            );
        },
        _ => {},
    }
}

/// The tag, the field and the value of a route that has a field.
spec fn route_parts(route: RouteView) -> Option<(Seq<char>, Seq<char>, JsonView)> {
    match route {
        RouteView::Substitute { substituter } => Some(
            ("substitute"@, "substituter"@, JsonView::Text(substituter)),
        ),
        RouteView::RemoteNative { builders } => Some(
            ("remote-native"@, "builders"@, texts_document(builders)),
        ),
        RouteView::Fail { reason } => Some(("fail"@, "reason"@, JsonView::Text(reason))),
        _ => None,
    }
}

proof fn lemma_route_injective(left: RouteView, right: RouteView)
    requires
        route_document(left) == route_document(right),
    ensures
        left == right,
{
    reveal_strlit("substitute");
    reveal_strlit("remote-native");
    reveal_strlit("fail");
    reveal_strlit("already-present");
    reveal_strlit("build-local");
    assert("substitute"@.len() == 10);
    assert("remote-native"@.len() == 13);
    assert("fail"@.len() == 4);
    assert("already-present"@.len() == 15);
    assert("build-local"@.len() == 11);
    if let (Some((tag, name, a)), Some((other_tag, other_name, b))) = (
        route_parts(left),
        route_parts(right),
    ) {
        assert(route_document(left) == tagged(tag, name, a));
        assert(route_document(right) == tagged(other_tag, other_name, b));
        lemma_tagged_injective(tag, name, a, other_tag, other_name, b);
        if let (
            RouteView::RemoteNative { builders: x },
            RouteView::RemoteNative { builders: y },
        ) = (left, right) {
            lemma_texts_injective(x, y);
        }
    }
}

proof fn lemma_class_injective(left: DerivationClass, right: DerivationClass)
    requires
        class_name(left) == class_name(right),
    ensures
        left == right,
{
    reveal_strlit("local-present");
    reveal_strlit("host-substituted");
    reveal_strlit("build-local");
    reveal_strlit("host-remote");
    reveal_strlit("unhandled");
    assert("local-present"@.len() == 13);
    assert("host-substituted"@.len() == 16);
    assert("build-local"@.len() == 11);
    assert("build-local"@[0] == 'b');
    assert("host-remote"@.len() == 11);
    assert("host-remote"@[0] == 'h');
    assert("unhandled"@.len() == 9);
}

proof fn lemma_action_injective(left: ActionView, right: ActionView)
    requires
        record(action_slots(left)) == record(action_slots(right)),
    ensures
        left == right,
{
    lemma_action_names(left);
    lemma_action_names(right);
    let a = action_slots(left);
    let b = action_slots(right);
    lemma_kept_injective(a, b);
    assert(a[0] == b[0] && a[1] == b[1] && a[2] == b[2] && a[3] == b[3]);
    lemma_probe_injective(left.probe, right.probe);
    lemma_route_injective(left.route, right.route);
}

proof fn lemma_outputs_injective(
    drv: Seq<char>,
    outputs: Seq<Seq<char>>,
    other_drv: Seq<char>,
    other_outputs: Seq<Seq<char>>,
)
    requires
        record(outputs_slots(drv, outputs)) == record(outputs_slots(other_drv, other_outputs)),
    ensures
        drv == other_drv,
        outputs == other_outputs,
{
    lemma_outputs_names(drv, outputs);
    lemma_outputs_names(other_drv, other_outputs);
    let a = outputs_slots(drv, outputs);
    let b = outputs_slots(other_drv, other_outputs);
    lemma_kept_injective(a, b);
    assert(a[0] == b[0] && a[1] == b[1]);
    lemma_texts_injective(outputs, other_outputs);
}

proof fn lemma_actions_injective(left: Seq<ActionView>, right: Seq<ActionView>)
    requires
        action_documents(left) == action_documents(right),
    ensures
        left == right,
{
    assert(left.len() == action_documents(left).len());
    assert(right.len() == action_documents(right).len());
    assert forall|i: int| 0 <= i < left.len() implies left[i] == right[i] by {
        assert(action_documents(left)[i] == record(action_slots(left[i])));
        assert(action_documents(right)[i] == record(action_slots(right[i])));
        lemma_action_injective(left[i], right[i]);
    }
    assert(left =~= right);
}

proof fn lemma_dependencies_injective(left: Seq<DependencyView>, right: Seq<DependencyView>)
    requires
        dependency_documents(left) == dependency_documents(right),
    ensures
        left == right,
{
    assert(left.len() == dependency_documents(left).len());
    assert(right.len() == dependency_documents(right).len());
    assert forall|i: int| 0 <= i < left.len() implies left[i] == right[i] by {
        assert(dependency_documents(left)[i] == record(
            outputs_slots(left[i].drv, left[i].outputs),
        ));
        assert(dependency_documents(right)[i] == record(
            outputs_slots(right[i].drv, right[i].outputs),
        ));
        lemma_outputs_injective(left[i].drv, left[i].outputs, right[i].drv, right[i].outputs);
    }
    assert(left =~= right);
}

proof fn lemma_roots_injective(left: Seq<RootView>, right: Seq<RootView>)
    requires
        root_documents(left) == root_documents(right),
    ensures
        left == right,
{
    assert(left.len() == root_documents(left).len());
    assert(right.len() == root_documents(right).len());
    assert forall|i: int| 0 <= i < left.len() implies left[i] == right[i] by {
        assert(root_documents(left)[i] == record(outputs_slots(left[i].drv, left[i].outputs)));
        assert(root_documents(right)[i] == record(outputs_slots(right[i].drv, right[i].outputs)));
        lemma_outputs_injective(left[i].drv, left[i].outputs, right[i].drv, right[i].outputs);
    }
    assert(left =~= right);
}

proof fn lemma_derivation_injective(left: DerivationView, right: DerivationView)
    requires
        record(derivation_slots(left)) == record(derivation_slots(right)),
    ensures
        left == right,
{
    lemma_derivation_names(left);
    lemma_derivation_names(right);
    let a = derivation_slots(left);
    let b = derivation_slots(right);
    lemma_kept_injective(a, b);
    assert(a[0] == b[0] && a[1] == b[1] && a[2] == b[2] && a[3] == b[3]);
    assert(a[4] == b[4] && a[5] == b[5] && a[6] == b[6] && a[7] == b[7]);
    assert(a[8] == b[8] && a[9] == b[9] && a[10] == b[10] && a[11] == b[11]);
    assert(text_documents(left.output_names) =~= text_documents(right.output_names));
    lemma_texts_injective(left.output_names, right.output_names);
    lemma_texts_injective(left.outputs, right.outputs);
    lemma_class_injective(left.class, right.class);
    if left.route != (RouteView::Fail { reason: Seq::empty() }) && right.route
        != (RouteView::Fail { reason: Seq::empty() }) {
        lemma_route_injective(left.route, right.route);
    }
    if let (Some(x), Some(y)) = (left.probe, right.probe) {
        lemma_probe_injective(x, y);
    }
    assert(action_documents(left.actions) =~= action_documents(right.actions));
    lemma_actions_injective(left.actions, right.actions);
    assert(dependency_documents(left.dependencies) =~= dependency_documents(right.dependencies));
    lemma_dependencies_injective(left.dependencies, right.dependencies);
}

proof fn lemma_number_injective(left: nat, right: nat)
    requires
        number_document(left) == number_document(right),
    ensures
        left == right,
{
    text::lemma_decimal_digits(left);
    text::lemma_decimal_digits(right);
}

proof fn lemma_counts_injective(left: CountsView, right: CountsView)
    requires
        record(counts_slots(left)) == record(counts_slots(right)),
    ensures
        left == right,
{
    lemma_counts_names(left);
    lemma_counts_names(right);
    let a = counts_slots(left);
    let b = counts_slots(right);
    lemma_kept_injective(a, b);
    assert(a[0] == b[0] && a[1] == b[1] && a[2] == b[2] && a[3] == b[3] && a[4] == b[4]);
    lemma_number_injective(left.host_substituted, right.host_substituted);
    lemma_number_injective(left.local_present, right.local_present);
    lemma_number_injective(left.build_local, right.build_local);
    lemma_number_injective(left.host_remote, right.host_remote);
    lemma_number_injective(left.unhandled, right.unhandled);
}

/// The canonical document covers a plan completely: plans with one document
/// differ in their identifiers at most.
pub proof fn law_document_determines_content(left: PlanView, right: PlanView)
    requires
        plan_document(left) == plan_document(right),
    ensures
        content(left) == content(right),
{
    lemma_plan_names(left);
    lemma_plan_names(right);
    let a = plan_slots(left);
    let b = plan_slots(right);
    lemma_kept_injective(a, b);
    assert(a[0] == b[0] && a[1] == b[1] && a[2] == b[2] && a[3] == b[3]);
    assert(a[4] == b[4] && a[5] == b[5] && a[6] == b[6] && a[7] == b[7]);
    lemma_number_injective(left.schema_version as nat, right.schema_version as nat);
    lemma_roots_injective(left.roots, right.roots);
    let x = left.derivations;
    let y = right.derivations;
    assert(derivation_documents(x) == derivation_documents(y));
    assert(x.len() == derivation_documents(x).len());
    assert(y.len() == derivation_documents(y).len());
    assert forall|i: int| 0 <= i < x.len() implies x[i] == y[i] by {
        assert(derivation_documents(x)[i] == record(derivation_slots(x[i])));
        assert(derivation_documents(y)[i] == record(derivation_slots(y[i])));
        lemma_derivation_injective(x[i], y[i]);
    }
    assert(x =~= y);
    lemma_counts_injective(left.counts, right.counts);
}

/// The identifier recorded in a plan has no part in the identifier that is
/// computed for it.
pub proof fn law_identifier_is_excluded(plan: PlanView, recorded: Seq<char>)
    ensures
        plan_id_of(PlanView { plan_id: recorded, ..plan }) == plan_id_of(plan),
{
}

// ---------------------------------------------------------------------------
// Digest names
// ---------------------------------------------------------------------------

proof fn lemma_hex(bytes: Seq<u8>)
    ensures
        hex(bytes).len() == 2 * bytes.len(),
        forall|i: int| 0 <= i < hex(bytes).len() ==> is_hex(#[trigger] hex(bytes)[i]),
    decreases bytes.len(),
{
    if bytes.len() > 0 {
        lemma_hex(bytes.drop_last());
    }
}

proof fn lemma_hex_determines(left: Seq<u8>, right: Seq<u8>)
    requires
        hex(left) == hex(right),
    ensures
        left == right,
    decreases left.len(),
{
    lemma_hex(left);
    lemma_hex(right);
    if left.len() > 0 {
        let these = hex(left);
        let those = hex(right);
        let n = these.len() as int;
        assert(these[n - 1] == hex_digit(left.last() as int % 16));
        assert(these[n - 2] == hex_digit(left.last() as int / 16));
        assert(those[n - 1] == hex_digit(right.last() as int % 16));
        assert(those[n - 2] == hex_digit(right.last() as int / 16));
        assert(left.last() == right.last());
        lemma_hex(left.drop_last());
        lemma_hex(right.drop_last());
        assert(hex(left.drop_last()) =~= these.take(n - 2));
        assert(hex(right.drop_last()) =~= those.take(n - 2));
        lemma_hex_determines(left.drop_last(), right.drop_last());
        assert(left =~= left.drop_last().push(left.last()));
        assert(right =~= right.drop_last().push(right.last()));
    } else {
        assert(left =~= right);
    }
}

proof fn lemma_digest_name(bytes: Seq<u8>)
    requires
        sha256(bytes).len() == 32,
    ensures
        is_digest_name(digest_name(bytes)),
{
    reveal_strlit("sha256-");
    lemma_hex(sha256(bytes));
    let name = digest_name(bytes);
    assert forall|i: int| 7 <= i < name.len() implies is_hex(#[trigger] name[i]) by {
        assert(name[i] == hex(sha256(bytes))[i - 7]);
    }
}

/// Different bytes have different names, unless their digests collide.
pub proof fn law_digest_names_tell_bytes_apart(left: Seq<u8>, right: Seq<u8>)
    ensures
        digest_name(left) == digest_name(right) <==> left == right || collide(left, right),
{
    if digest_name(left) == digest_name(right) {
        let n = "sha256-"@.len() as int;
        assert(digest_name(left).skip(n) =~= hex(sha256(left)));
        assert(digest_name(right).skip(n) =~= hex(sha256(right)));
        lemma_hex_determines(sha256(left), sha256(right));
    }
}

// ---------------------------------------------------------------------------
// Operations
// ---------------------------------------------------------------------------

fn texts_json(items: &[String]) -> (result: serde_json::Value)
    ensures
        json_model(result) == JsonView::List(text_documents(items.deep_view())),
{
    let ghost all = text_documents(items.deep_view());
    let mut values: Vec<serde_json::Value> = Vec::new();
    for i in 0..items.len()
        invariant
            all == text_documents(items.deep_view()),
            json_models(values@) == all.take(i as int),
    {
        let ghost before = json_models(values@);
        let value = json_text(items[i].as_str());
        values.push(value);
        assert(items.deep_view()[i as int] == items@[i as int]@);
        assert(json_models(values@) =~= before.push(json_model(value)));
        assert(json_models(values@) =~= all.take(i + 1));
    }
    assert(all.take(items.len() as int) =~= all);
    json_list(values)
}

fn tagged_json(tag: &str, name: &str, value: serde_json::Value) -> (result: serde_json::Value)
    ensures
        json_model(result) == tagged(tag@, name@, json_model(value)),
{
    let mut inner: Vec<(String, serde_json::Value)> = Vec::new();
    assert(json_fields(inner@) =~= Seq::empty());
    put(&mut inner, name, value);
    assert(json_fields(inner@) =~= seq![(name@, json_model(value))]);
    let mut outer: Vec<(String, serde_json::Value)> = Vec::new();
    assert(json_fields(outer@) =~= Seq::empty());
    let inside = json_record(inner);
    put(&mut outer, tag, inside);
    assert(json_fields(outer@) =~= seq![(tag@, json_model(inside))]);
    json_record(outer)
}

fn probe_json(probe: &ProbeResult) -> (result: serde_json::Value)
    ensures
        json_model(result) == probe_document(probe@),
{
    match probe {
        ProbeResult::Present { substituter } => tagged_json(
            "present",
            "substituter",
            json_text(substituter.as_str()),
        ),
        ProbeResult::LocalPresent => json_text("local-present"),
        ProbeResult::Missing => json_text("missing"),
        ProbeResult::Indeterminate { errors } => tagged_json(
            "indeterminate",
            "errors",
            texts_json(errors.as_slice()),
        ),
        ProbeResult::SkippedKnownLocal => json_text("skipped-known-local"),
    }
}

fn route_json(route: &RealizationRoute) -> (result: serde_json::Value)
    ensures
        json_model(result) == route_document(route@),
{
    match route {
        RealizationRoute::Substitute { substituter } => tagged_json(
            "substitute",
            "substituter",
            json_text(substituter.as_str()),
        ),
        RealizationRoute::AlreadyPresent => json_text("already-present"),
        RealizationRoute::BuildLocal => json_text("build-local"),
        RealizationRoute::RemoteNative { builders } => tagged_json(
            "remote-native",
            "builders",
            texts_json(builders.as_slice()),
        ),
        RealizationRoute::Fail { reason } => tagged_json(
            "fail",
            "reason",
            json_text(reason.as_str()),
        ),
    }
}

fn class_json(class: DerivationClass) -> (result: serde_json::Value)
    ensures
        json_model(result) == JsonView::Text(class_name(class)),
{
    match class {
        DerivationClass::LocalPresent => json_text("local-present"),
        DerivationClass::HostSubstituted => json_text("host-substituted"),
        DerivationClass::BuildLocal => json_text("build-local"),
        DerivationClass::HostRemote => json_text("host-remote"),
        DerivationClass::Unhandled => json_text("unhandled"),
    }
}

/// Whether a route is the one that is left out of the document.
fn is_default_route(route: &RealizationRoute) -> (result: bool)
    ensures
        result == (route@ == (RouteView::Fail { reason: Seq::empty() })),
{
    match route {
        RealizationRoute::Fail { reason } => {
            let empty = reason.as_str().is_empty();
            assert(empty == (reason@ =~= Seq::<char>::empty()));
            empty
        },
        _ => false,
    }
}

/// A record that is being built: the first `done` slots are in it.
spec fn built(
    fields: Seq<(String, serde_json::Value)>,
    slots: Seq<Slot>,
    done: int,
) -> bool {
    0 <= done <= slots.len() && json_fields(fields) == kept(slots.take(done))
}

proof fn lemma_built_start(fields: Seq<(String, serde_json::Value)>, slots: Seq<Slot>)
    requires
        fields.len() == 0,
    ensures
        built(fields, slots, 0),
{
    assert(slots.take(0) =~= Seq::empty());
    assert(json_fields(fields) =~= Seq::empty());
}

/// Puts the next slot into a record, when it is there.
fn put_slot(
    fields: &mut Vec<(String, serde_json::Value)>,
    name: &str,
    value: Option<serde_json::Value>,
    Ghost(slots): Ghost<Seq<Slot>>,
    Ghost(done): Ghost<int>,
)
    requires
        built(old(fields)@, slots, done),
        done < slots.len(),
        slots[done].0 == name@,
        slots[done].1 == match value {
            Some(value) => Some(json_model(value)),
            None => None,
        },
    ensures
        built(final(fields)@, slots, done + 1),
{
    assert(slots.take(done + 1).drop_last() =~= slots.take(done));
    assert(slots.take(done + 1).last() == slots[done]);
    if let Some(value) = value {
        put(fields, name, value);
    }
}

proof fn lemma_built_end(fields: Seq<(String, serde_json::Value)>, slots: Seq<Slot>)
    requires
        built(fields, slots, slots.len() as int),
        slot_names(slots).no_duplicates(),
    ensures
        json_fields(fields) == kept(slots),
        distinct_names(json_fields(fields)),
{
    assert(slots.take(slots.len() as int) =~= slots);
    lemma_kept_distinct(slots);
}

fn action_json(action: &OutputAction) -> (result: serde_json::Value)
    ensures
        json_model(result) == record(action_slots(action@)),
{
    let ghost slots = action_slots(action@);
    let mut fields: Vec<(String, serde_json::Value)> = Vec::new();
    proof {
        lemma_built_start(fields@, slots);
        lemma_action_names(action@);
    }
    put_slot(
        &mut fields,
        "output",
        Some(json_text(action.output.as_str())),
        Ghost(slots),
        Ghost(0),
    );
    put_slot(&mut fields, "path", Some(json_text(action.path.as_str())), Ghost(slots), Ghost(1));
    put_slot(&mut fields, "probe", Some(probe_json(&action.probe)), Ghost(slots), Ghost(2));
    put_slot(&mut fields, "route", Some(route_json(&action.route)), Ghost(slots), Ghost(3));
    proof {
        lemma_built_end(fields@, slots);
    }
    json_record(fields)
}

fn outputs_json(drv: &str, outputs: &[String]) -> (result: serde_json::Value)
    ensures
        json_model(result) == record(outputs_slots(drv@, outputs.deep_view())),
{
    let ghost slots = outputs_slots(drv@, outputs.deep_view());
    let mut fields: Vec<(String, serde_json::Value)> = Vec::new();
    proof {
        lemma_built_start(fields@, slots);
        lemma_outputs_names(drv@, outputs.deep_view());
    }
    put_slot(&mut fields, "drv", Some(json_text(drv)), Ghost(slots), Ghost(0));
    put_slot(&mut fields, "outputs", Some(texts_json(outputs)), Ghost(slots), Ghost(1));
    proof {
        lemma_built_end(fields@, slots);
    }
    json_record(fields)
}

fn actions_json(actions: &[OutputAction]) -> (result: serde_json::Value)
    ensures
        json_model(result) == JsonView::List(action_documents(actions.deep_view())),
{
    let ghost all = action_documents(actions.deep_view());
    let mut values: Vec<serde_json::Value> = Vec::new();
    for i in 0..actions.len()
        invariant
            all == action_documents(actions.deep_view()),
            json_models(values@) == all.take(i as int),
    {
        let ghost before = json_models(values@);
        let value = action_json(&actions[i]);
        values.push(value);
        assert(actions.deep_view()[i as int] == actions@[i as int]@);
        assert(json_models(values@) =~= before.push(json_model(value)));
        assert(json_models(values@) =~= all.take(i + 1));
    }
    assert(all.take(actions.len() as int) =~= all);
    json_list(values)
}

fn dependencies_json(dependencies: &[PlanDependency]) -> (result: serde_json::Value)
    ensures
        json_model(result) == JsonView::List(dependency_documents(dependencies.deep_view())),
{
    let ghost all = dependency_documents(dependencies.deep_view());
    let mut values: Vec<serde_json::Value> = Vec::new();
    for i in 0..dependencies.len()
        invariant
            all == dependency_documents(dependencies.deep_view()),
            json_models(values@) == all.take(i as int),
    {
        let ghost before = json_models(values@);
        let value = outputs_json(
            dependencies[i].drv.as_str(),
            dependencies[i].outputs.as_slice(),
        );
        values.push(value);
        assert(dependencies.deep_view()[i as int] == dependencies@[i as int]@);
        assert(json_models(values@) =~= before.push(json_model(value)));
        assert(json_models(values@) =~= all.take(i + 1));
    }
    assert(all.take(dependencies.len() as int) =~= all);
    json_list(values)
}

fn roots_json(roots: &[PlanRoot]) -> (result: serde_json::Value)
    ensures
        json_model(result) == JsonView::List(root_documents(roots.deep_view())),
{
    let ghost all = root_documents(roots.deep_view());
    let mut values: Vec<serde_json::Value> = Vec::new();
    for i in 0..roots.len()
        invariant
            all == root_documents(roots.deep_view()),
            json_models(values@) == all.take(i as int),
    {
        let ghost before = json_models(values@);
        let value = outputs_json(roots[i].drv.as_str(), roots[i].outputs.as_slice());
        values.push(value);
        assert(roots.deep_view()[i as int] == roots@[i as int]@);
        assert(json_models(values@) =~= before.push(json_model(value)));
        assert(json_models(values@) =~= all.take(i + 1));
    }
    assert(all.take(roots.len() as int) =~= all);
    json_list(values)
}

fn optional_text(value: &Option<String>) -> (result: Option<serde_json::Value>)
    ensures
        match result {
            Some(document) => text_slot(value.deep_view()) == Some(json_model(document)),
            None => text_slot(value.deep_view()) is None,
        },
{
    match value {
        Some(value) => Some(json_text(value.as_str())),
        None => None,
    }
}

fn derivation_json(plan: &DerivationPlan) -> (result: serde_json::Value)
    ensures
        json_model(result) == record(derivation_slots(plan@)),
{
    let ghost slots = derivation_slots(plan@);
    let mut fields: Vec<(String, serde_json::Value)> = Vec::new();
    proof {
        lemma_built_start(fields@, slots);
        lemma_derivation_names(plan@);
    }
    put_slot(&mut fields, "drv", Some(json_text(plan.drv.as_str())), Ghost(slots), Ghost(0));
    put_slot(&mut fields, "name", optional_text(&plan.name), Ghost(slots), Ghost(1));
    put_slot(&mut fields, "pname", optional_text(&plan.pname), Ghost(slots), Ghost(2));
    let output_names = if plan.output_names.len() == 0 {
        None
    } else {
        Some(texts_json(plan.output_names.as_slice()))
    };
    put_slot(&mut fields, "output_names", output_names, Ghost(slots), Ghost(3));
    put_slot(
        &mut fields,
        "outputs",
        Some(texts_json(plan.outputs.as_slice())),
        Ghost(slots),
        Ghost(4),
    );
    put_slot(
        &mut fields,
        "system",
        Some(json_text(plan.system.as_str())),
        Ghost(slots),
        Ghost(5),
    );
    put_slot(&mut fields, "class", Some(class_json(plan.class)), Ghost(slots), Ghost(6));
    let route = if is_default_route(&plan.route) {
        None
    } else {
        Some(route_json(&plan.route))
    };
    put_slot(&mut fields, "route", route, Ghost(slots), Ghost(7));
    put_slot(&mut fields, "hint", optional_text(&plan.hint), Ghost(slots), Ghost(8));
    let probe = match &plan.probe {
        Some(probe) => Some(probe_json(probe)),
        None => None,
    };
    put_slot(&mut fields, "probe", probe, Ghost(slots), Ghost(9));
    let actions = if plan.actions.len() == 0 {
        None
    } else {
        Some(actions_json(plan.actions.as_slice()))
    };
    put_slot(&mut fields, "actions", actions, Ghost(slots), Ghost(10));
    let dependencies = if plan.dependencies.len() == 0 {
        None
    } else {
        Some(dependencies_json(plan.dependencies.as_slice()))
    };
    put_slot(&mut fields, "dependencies", dependencies, Ghost(slots), Ghost(11));
    proof {
        lemma_built_end(fields@, slots);
    }
    json_record(fields)
}

fn derivations_json(plans: &[DerivationPlan]) -> (result: serde_json::Value)
    ensures
        json_model(result) == JsonView::List(derivation_documents(plans.deep_view())),
{
    let ghost all = derivation_documents(plans.deep_view());
    let mut values: Vec<serde_json::Value> = Vec::new();
    for i in 0..plans.len()
        invariant
            all == derivation_documents(plans.deep_view()),
            json_models(values@) == all.take(i as int),
    {
        let ghost before = json_models(values@);
        let value = derivation_json(&plans[i]);
        values.push(value);
        assert(plans.deep_view()[i as int] == plans@[i as int]@);
        assert(json_models(values@) =~= before.push(json_model(value)));
        assert(json_models(values@) =~= all.take(i + 1));
    }
    assert(all.take(plans.len() as int) =~= all);
    json_list(values)
}

fn counts_json(counts: &PlanCounts) -> (result: serde_json::Value)
    ensures
        json_model(result) == record(counts_slots(counts@)),
{
    let ghost slots = counts_slots(counts@);
    let mut fields: Vec<(String, serde_json::Value)> = Vec::new();
    proof {
        lemma_built_start(fields@, slots);
        lemma_counts_names(counts@);
    }
    put_slot(
        &mut fields,
        "host_substituted",
        Some(json_number(counts.host_substituted as u64)),
        Ghost(slots),
        Ghost(0),
    );
    put_slot(
        &mut fields,
        "local_present",
        Some(json_number(counts.local_present as u64)),
        Ghost(slots),
        Ghost(1),
    );
    put_slot(
        &mut fields,
        "build_local",
        Some(json_number(counts.build_local as u64)),
        Ghost(slots),
        Ghost(2),
    );
    put_slot(
        &mut fields,
        "host_remote",
        Some(json_number(counts.host_remote as u64)),
        Ghost(slots),
        Ghost(3),
    );
    put_slot(
        &mut fields,
        "unhandled",
        Some(json_number(counts.unhandled as u64)),
        Ghost(slots),
        Ghost(4),
    );
    proof {
        lemma_built_end(fields@, slots);
    }
    json_record(fields)
}

fn plan_json(plan: &ClosurePlan) -> (result: serde_json::Value)
    ensures
        json_model(result) == plan_document(plan@),
{
    let ghost slots = plan_slots(plan@);
    let mut fields: Vec<(String, serde_json::Value)> = Vec::new();
    proof {
        lemma_built_start(fields@, slots);
        lemma_plan_names(plan@);
    }
    put_slot(
        &mut fields,
        "schema_version",
        Some(json_number(plan.schema_version as u64)),
        Ghost(slots),
        Ghost(0),
    );
    put_slot(
        &mut fields,
        "toplevel_installable",
        Some(json_text(plan.toplevel_installable.as_str())),
        Ghost(slots),
        Ghost(1),
    );
    put_slot(
        &mut fields,
        "flake_installable",
        Some(json_text(plan.flake_installable.as_str())),
        Ghost(slots),
        Ghost(2),
    );
    put_slot(
        &mut fields,
        "build_system",
        Some(json_text(plan.build_system.as_str())),
        Ghost(slots),
        Ghost(3),
    );
    put_slot(
        &mut fields,
        "host_system",
        Some(json_text(plan.host_system.as_str())),
        Ghost(slots),
        Ghost(4),
    );
    put_slot(
        &mut fields,
        "roots",
        Some(roots_json(plan.roots.as_slice())),
        Ghost(slots),
        Ghost(5),
    );
    put_slot(
        &mut fields,
        "derivations",
        Some(derivations_json(plan.derivations.as_slice())),
        Ghost(slots),
        Ghost(6),
    );
    put_slot(&mut fields, "counts", Some(counts_json(&plan.counts)), Ghost(slots), Ghost(7));
    proof {
        lemma_built_end(fields@, slots);
    }
    json_record(fields)
}

fn hex_char(value: u8) -> (result: char)
    requires
        value < 16,
    ensures
        result == hex_digit(value as int),
{
    if value < 10 {
        (48 + value) as char
    } else {
        (87 + value) as char
    }
}

/// Bytes in lower-case hexadecimal.
pub fn to_hex(bytes: &[u8]) -> (result: String)
    ensures
        result@ == hex(bytes@),
{
    let mut out = String::new();
    assert(bytes@.take(0) =~= Seq::empty());
    for i in 0..bytes.len()
        invariant
            out@ == hex(bytes@.take(i as int)),
    {
        let byte = bytes[i];
        assert(bytes@.take(i + 1).drop_last() =~= bytes@.take(i as int));
        assert(bytes@.take(i + 1).last() == byte);
        out.push(hex_char(byte / 16));
        out.push(hex_char(byte % 16));
    }
    assert(bytes@.take(bytes.len() as int) =~= bytes@);
    out
}

/// The stable name of some bytes: their SHA-256 digest in hexadecimal.
pub fn name_of_digest(bytes: &[u8]) -> (result: String)
    ensures
        result@ == digest_name(bytes@),
        is_digest_name(result@),
{
    let digest = sha256_digest(bytes);
    proof {
        lemma_digest_name(bytes@);
    }
    "sha256-".to_owned().concat(to_hex(digest.as_slice()).as_str())
}

impl ClosurePlan {
    /// Computes the stable identifier for this plan's canonical content.
    ///
    /// Plans have one identifier exactly when they differ in their recorded
    /// identifiers at most, unless the digests of their documents collide.
    pub fn canonical_plan_id(&self) -> (result: Result<String>)
        ensures
            outcome(result) == Ok::<Seq<char>, ErrorView>(plan_id_of(self@)),
            result matches Ok(id) ==> is_digest_name(id@),
            forall|other: PlanView| #[trigger]
                plan_id_of(other) == plan_id_of(self@) <==> content(other) == content(self@)
                    || collide(
                    json_bytes(plan_document(other)),
                    json_bytes(plan_document(self@)),
                ),
    {
        let document = plan_json(self);
        match json_to_vec(&document) {
            Ok(bytes) => {
                proof {
                    let own = json_bytes(plan_document(self@));
                    assert forall|other: PlanView| #[trigger]
                        plan_id_of(other) == plan_id_of(self@) <==> content(other) == content(self@)
                            || collide(json_bytes(plan_document(other)), own) by {
                        let theirs = json_bytes(plan_document(other));
                        law_digest_names_tell_bytes_apart(theirs, own);
                        if theirs == own {
                            law_document_determines_content(other, self@);
                        }
                        if content(other) == content(self@) {
                            law_identifier_is_excluded(other, Seq::empty());
                            law_identifier_is_excluded(self@, Seq::empty());
                        }
                    }
                }
                Ok(name_of_digest(bytes.as_slice()))
            },
            Err(source) => Err(Error::PlannerJson { source }),
        }
    }

    /// Records the identifier of the plan's content in the plan.
    pub fn seal(self) -> (result: Result<ClosurePlan>)
        ensures
            outcome(result) == Ok::<PlanView, ErrorView>(
                PlanView { plan_id: plan_id_of(self@), ..self@ },
            ),
            result matches Ok(plan) ==> is_digest_name(plan.plan_id@),
    {
        match self.canonical_plan_id() {
            Ok(plan_id) => Ok(ClosurePlan { plan_id, ..self }),
            Err(error) => Err(error),
        }
    }
}

/// A digest is written byte by byte in two small hexadecimal digits, the higher
/// one first.
pub proof fn law_bytes_are_written_in_two_digits(bytes: Seq<u8>, byte: u8)
    ensures
        hex(Seq::empty()) == Seq::<char>::empty(),
        hex(bytes.push(byte)) == hex(bytes) + seq![
            hex_digit(byte as int / 16),
            hex_digit(byte as int % 16),
        ],
        forall|d: int| 0 <= d < 10 ==> #[trigger] hex_digit(d) as u32 == '0' as u32 + d,
        forall|d: int| 10 <= d < 16 ==> #[trigger] hex_digit(d) as u32 == 'a' as u32 + d - 10,
{
    assert(bytes.push(byte).drop_last() =~= bytes);
    assert(hex(bytes).push(hex_digit(byte as int / 16)).push(hex_digit(byte as int % 16)) =~= hex(
        bytes,
    ) + seq![hex_digit(byte as int / 16), hex_digit(byte as int % 16)]);
}

/// The identifier of a plan is the digest of its document.
pub proof fn law_identifiers_are_digests_of_documents(plan: PlanView)
    ensures
        plan_id_of(plan) == "sha256-"@ + hex(sha256(json_bytes(plan_document(plan)))),
{
}

/// A record holds the fields that are there, in their order, and leaves out the
/// others.
pub proof fn law_absent_fields_are_left_out(slots: Seq<Slot>, name: Seq<char>, value: JsonView)
    ensures
        record(Seq::empty()) == JsonView::Record(Seq::empty()),
        record(slots) matches JsonView::Record(fields) ==> {
            &&& record(slots.push((name, Some(value)))) == JsonView::Record(
                fields.push((name, value)),
            )
            &&& record(slots.push((name, None))) == JsonView::Record(fields)
        },
        record(slots) is Record,
{
    assert(slots.push((name, Some(value))).drop_last() =~= slots);
    assert(slots.push((name, None::<JsonView>)).drop_last() =~= slots);
}

/// The document of a plan holds its schema version, what it is for, its systems,
/// its roots, its derivations and its counts, each under its own name and in
/// order.
pub proof fn law_plan_documents_hold_every_part(plan: PlanView, i: int)
    ensures
        plan_slots(plan).len() == 8,
        plan_slots(plan)[0] == (
            "schema_version"@,
            Some(JsonView::Number(text::decimal(plan.schema_version as nat))),
        ),
        plan_slots(plan)[1] == (
            "toplevel_installable"@,
            Some(JsonView::Text(plan.toplevel_installable)),
        ),
        plan_slots(plan)[2] == (
            "flake_installable"@,
            Some(JsonView::Text(plan.flake_installable)),
        ),
        plan_slots(plan)[3] == ("build_system"@, Some(JsonView::Text(plan.build_system))),
        plan_slots(plan)[4] == ("host_system"@, Some(JsonView::Text(plan.host_system))),
        plan_slots(plan)[5].0 == "roots"@,
        plan_slots(plan)[5].1 matches Some(JsonView::List(roots)) && roots.len() == plan.roots.len()
            && (0 <= i < roots.len() ==> roots[i] == record(
            outputs_slots(plan.roots[i].drv, plan.roots[i].outputs),
        )),
        plan_slots(plan)[6].0 == "derivations"@,
        plan_slots(plan)[6].1 matches Some(JsonView::List(derivations)) && derivations.len()
            == plan.derivations.len() && (0 <= i < derivations.len() ==> derivations[i] == record(
            derivation_slots(plan.derivations[i]),
        )),
        plan_slots(plan)[7] == ("counts"@, Some(record(counts_slots(plan.counts)))),
        plan_document(plan) == record(plan_slots(plan)),
{
}

/// The counts are written as numbers, each under its own name and in order.
pub proof fn law_counts_are_written_by_name(counts: CountsView)
    ensures
        counts_slots(counts) == seq![
            (
                "host_substituted"@,
                Some(JsonView::Number(text::decimal(counts.host_substituted))),
            ),
            ("local_present"@, Some(JsonView::Number(text::decimal(counts.local_present)))),
            ("build_local"@, Some(JsonView::Number(text::decimal(counts.build_local)))),
            ("host_remote"@, Some(JsonView::Number(text::decimal(counts.host_remote)))),
            ("unhandled"@, Some(JsonView::Number(text::decimal(counts.unhandled)))),
        ],
{
}

/// The document of a derivation holds its path, outputs, system and class. Its
/// names, output names, route, hint, probe, actions and dependencies are left
/// out where they are absent or empty, and the route where it fails without a
/// reason.
pub proof fn law_derivation_documents_hold_every_part(plan: DerivationView, i: int)
    ensures
        ({
            let slots = derivation_slots(plan);
            &&& slots.len() == 12
            &&& slots[0] == ("drv"@, Some(JsonView::Text(plan.drv)))
            &&& slots[1].0 == "name"@ && slots[2].0 == "pname"@ && slots[3].0 == "output_names"@
            &&& slots[4].0 == "outputs"@ && slots[7].0 == "route"@ && slots[8].0 == "hint"@
            &&& slots[9].0 == "probe"@ && slots[10].0 == "actions"@
            &&& slots[11].0 == "dependencies"@
            &&& slots[5] == ("system"@, Some(JsonView::Text(plan.system)))
            &&& slots[6] == ("class"@, Some(JsonView::Text(class_name(plan.class))))
            &&& slots[1].1 is Some <==> plan.name is Some
            &&& plan.name matches Some(name) ==> slots[1].1 == Some(JsonView::Text(name))
            &&& slots[2].1 is Some <==> plan.pname is Some
            &&& plan.pname matches Some(name) ==> slots[2].1 == Some(JsonView::Text(name))
            &&& slots[8].1 is Some <==> plan.hint is Some
            &&& plan.hint matches Some(hint) ==> slots[8].1 == Some(JsonView::Text(hint))
            &&& slots[9].1 is Some <==> plan.probe is Some
            &&& plan.probe matches Some(probe) ==> slots[9].1 == Some(probe_document(probe))
            &&& slots[7].1 is None <==> plan.route == (RouteView::Fail { reason: Seq::empty() })
            &&& slots[7].1 is Some ==> slots[7].1 == Some(route_document(plan.route))
            &&& slots[3].1 is None <==> plan.output_names.len() == 0
            &&& slots[3].1 matches Some(document) ==> (document matches JsonView::List(items)
                && items.len() == plan.output_names.len() && (0 <= i < items.len() ==> items[i]
                == JsonView::Text(plan.output_names[i])))
            &&& slots[4].1 matches Some(JsonView::List(items)) && items.len() == plan.outputs.len()
                && (0 <= i < items.len() ==> items[i] == JsonView::Text(plan.outputs[i]))
            &&& slots[10].1 is None <==> plan.actions.len() == 0
            &&& slots[10].1 matches Some(document) ==> (document matches JsonView::List(items)
                && items.len() == plan.actions.len() && (0 <= i < items.len() ==> items[i]
                == record(action_slots(plan.actions[i]))))
            &&& slots[11].1 is None <==> plan.dependencies.len() == 0
            &&& slots[11].1 matches Some(document) ==> (document matches JsonView::List(items)
                && items.len() == plan.dependencies.len() && (0 <= i < items.len() ==> items[i]
                == record(
                outputs_slots(plan.dependencies[i].drv, plan.dependencies[i].outputs),
            )))
        }),
{
}

/// The document of an action holds its output, path, probe and route; that of a
/// root or a dependency holds its derivation and its outputs.
pub proof fn law_action_documents_hold_every_part(
    action: ActionView,
    drv: Seq<char>,
    outputs: Seq<Seq<char>>,
    i: int,
)
    ensures
        action_slots(action) == seq![
            ("output"@, Some(JsonView::Text(action.output))),
            ("path"@, Some(JsonView::Text(action.path))),
            ("probe"@, Some(probe_document(action.probe))),
            ("route"@, Some(route_document(action.route))),
        ],
        outputs_slots(drv, outputs).len() == 2,
        outputs_slots(drv, outputs)[0] == ("drv"@, Some(JsonView::Text(drv))),
        outputs_slots(drv, outputs)[1].0 == "outputs"@,
        outputs_slots(drv, outputs)[1].1 matches Some(JsonView::List(items)) && items.len()
            == outputs.len() && (0 <= i < items.len() ==> items[i] == JsonView::Text(outputs[i])),
{
}

/// Probes, routes and classes are written under their names, in small letters
/// with hyphens; what comes with one is written under the name of its field.
pub proof fn law_variants_are_written_by_name(text: Seq<char>, texts: Seq<Seq<char>>)
    ensures
        probe_document(ProbeView::Present { substituter: text }) == JsonView::Record(
            seq![
                (
                    "present"@,
                    JsonView::Record(seq![("substituter"@, JsonView::Text(text))]),
                ),
            ],
        ),
        probe_document(ProbeView::Indeterminate { errors: texts }) == JsonView::Record(
            seq![
                (
                    "indeterminate"@,
                    JsonView::Record(
                        seq![
                            (
                                "errors"@,
                                JsonView::List(
                                    texts.map_values(|item: Seq<char>| JsonView::Text(item)),
                                ),
                            ),
                        ],
                    ),
                ),
            ],
        ),
        probe_document(ProbeView::LocalPresent) == JsonView::Text("local-present"@),
        probe_document(ProbeView::Missing) == JsonView::Text("missing"@),
        probe_document(ProbeView::SkippedKnownLocal) == JsonView::Text("skipped-known-local"@),
        route_document(RouteView::Substitute { substituter: text }) == JsonView::Record(
            seq![
                (
                    "substitute"@,
                    JsonView::Record(seq![("substituter"@, JsonView::Text(text))]),
                ),
            ],
        ),
        route_document(RouteView::RemoteNative { builders: texts }) == JsonView::Record(
            seq![
                (
                    "remote-native"@,
                    JsonView::Record(
                        seq![
                            (
                                "builders"@,
                                JsonView::List(
                                    texts.map_values(|item: Seq<char>| JsonView::Text(item)),
                                ),
                            ),
                        ],
                    ),
                ),
            ],
        ),
        route_document(RouteView::Fail { reason: text }) == JsonView::Record(
            seq![("fail"@, JsonView::Record(seq![("reason"@, JsonView::Text(text))]))],
        ),
        route_document(RouteView::AlreadyPresent) == JsonView::Text("already-present"@),
        route_document(RouteView::BuildLocal) == JsonView::Text("build-local"@),
        class_name(DerivationClass::LocalPresent) == "local-present"@,
        class_name(DerivationClass::HostSubstituted) == "host-substituted"@,
        class_name(DerivationClass::BuildLocal) == "build-local"@,
        class_name(DerivationClass::HostRemote) == "host-remote"@,
        class_name(DerivationClass::Unhandled) == "unhandled"@,
{
}

} // verus!
