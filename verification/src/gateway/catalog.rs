//! The model catalog: the description of every model that the gateway offers.

use vstd::prelude::*;

use crate::gateway::config;
use crate::gateway::config::{
    gateway_model_options_from_config, push_unique_model, read_gateway_config,
};
use crate::json;
use crate::json::{Json, JsonTree};
use crate::json::{
    json_array, json_number, json_object, json_text, new_entries, new_items, push_item, put,
};
use crate::json_text;
use crate::json_text::print_json;
use crate::text;
use crate::text::{joined, trim};

verus! {

/// A level of reasoning and what it is called.
pub open spec fn reasoning_level(effort: Seq<char>, description: Seq<char>) -> JsonTree {
    json::object_tree(
        seq![("effort"@, JsonTree::String(effort)), ("description"@, JsonTree::String(description))],
    )
}

/// The levels of reasoning that every model has.
pub open spec fn reasoning_levels() -> Seq<JsonTree> {
    seq![
        reasoning_level("low"@, "Low reasoning"@),
        reasoning_level("medium"@, "Medium reasoning"@),
        reasoning_level("high"@, "High reasoning"@),
        reasoning_level("xhigh"@, "Extra high reasoning"@),
    ]
}

/// How long outputs are cut.
pub open spec fn truncation_policy() -> Seq<(Seq<char>, JsonTree)> {
    seq![("mode"@, JsonTree::String("tokens"@)), ("limit"@, json::unsigned(10000))]
}

/// What a model can be given.
pub open spec fn input_modalities() -> Seq<JsonTree> {
    seq![JsonTree::String("text"@), JsonTree::String("image"@)]
}

/// The entries of the description of `model`.
pub open spec fn catalog_entries(model: Seq<char>, priority: u64) -> Seq<(Seq<char>, JsonTree)> {
    seq![
        ("slug"@, JsonTree::String(model)),
        ("display_name"@, JsonTree::String(model)),
        ("description"@, JsonTree::String("NextAI Gateway model "@ + model)),
        ("default_reasoning_level"@, JsonTree::String("medium"@)),
        ("supported_reasoning_levels"@, JsonTree::Array(reasoning_levels())),
        ("shell_type"@, JsonTree::String("shell_command"@)),
        ("visibility"@, JsonTree::String("list"@)),
        ("supported_in_api"@, JsonTree::Bool(true)),
        ("priority"@, json::unsigned(priority)),
        ("additional_speed_tiers"@, JsonTree::Array(Seq::empty())),
        ("service_tiers"@, JsonTree::Array(Seq::empty())),
        ("availability_nux"@, JsonTree::Null),
        ("upgrade"@, JsonTree::Null),
        ("base_instructions"@, JsonTree::String("You are Codex, a coding agent."@)),
        ("supports_reasoning_summaries"@, JsonTree::Bool(true)),
        ("default_reasoning_summary"@, JsonTree::String("none"@)),
        ("support_verbosity"@, JsonTree::Bool(true)),
        ("default_verbosity"@, JsonTree::String("low"@)),
        ("apply_patch_tool_type"@, JsonTree::String("freeform"@)),
        ("web_search_tool_type"@, JsonTree::String("text_and_image"@)),
        ("truncation_policy"@, json::object_tree(truncation_policy())),
        ("supports_parallel_tool_calls"@, JsonTree::Bool(true)),
        ("supports_image_detail_original"@, JsonTree::Bool(true)),
        ("context_window"@, json::unsigned(128000)),
        ("max_context_window"@, json::unsigned(128000)),
        ("effective_context_window_percent"@, json::unsigned(95)),
        ("experimental_supported_tools"@, JsonTree::Array(Seq::empty())),
        ("input_modalities"@, JsonTree::Array(input_modalities())),
        ("supports_search_tool"@, JsonTree::Bool(true)),
    ]
}

/// The description of `model`.
pub open spec fn catalog_item(model: Seq<char>, priority: u64) -> JsonTree {
    json::object_tree(catalog_entries(model, priority))
}

/// The catalog of `models`: their descriptions in order, each with its place.
pub open spec fn catalog(models: Seq<Seq<char>>) -> JsonTree {
    json::object_tree(
        seq![
            (
                "models"@,
                JsonTree::Array(
                    Seq::new(models.len(), |i: int| catalog_item(models[i], i as u64)),
                ),
            ),
        ],
    )
}

/// `models` with each of `more` behind it that is not blank and not there yet.
pub open spec fn with_models(models: Seq<Seq<char>>, more: Seq<Seq<char>>) -> Seq<Seq<char>>
    decreases more.len(),
{
    if more.len() == 0 {
        models
    } else {
        config::with_model(with_models(models, more.drop_last()), more.last())
    }
}

/// The models of the catalog: the selected one first, then those that the
/// configuration offers.
pub open spec fn catalog_models(selected: Seq<char>, config: JsonTree) -> Seq<Seq<char>> {
    with_models(
        config::with_model(Seq::empty(), text::trimmed(selected)),
        config::model_options(config),
    )
}

proof fn lemma_with_models(models: Seq<Seq<char>>, more: Seq<Seq<char>>)
    requires
        config::clean_list(models),
        config::clean_list(more),
    ensures
        config::clean_list(with_models(models, more)),
        models.is_prefix_of(with_models(models, more)),
        forall|i: int| 0 <= i < more.len() ==> with_models(models, more).contains(more[i]),
    decreases more.len(),
{
    if more.len() > 0 {
        let before = more.drop_last();
        assert(config::clean_list(before)) by {
            assert forall|i: int| 0 <= i < before.len() implies (#[trigger] before[i]).len() > 0
                && text::trimmed(before[i]) == before[i] by {
                assert(before[i] == more[i]);
            }
        }
        lemma_with_models(models, before);
        let held = with_models(models, before);
        let all = with_models(models, more);
        config::law_adding_a_model(held, more.last());
        assert(more[more.len() - 1] == more.last());
        assert(models =~= all.subrange(0, models.len() as int)) by {
            assert(models =~= held.subrange(0, models.len() as int));
        }
        assert forall|i: int| 0 <= i < more.len() implies all.contains(more[i]) by {
            if i < before.len() {
                assert(held.contains(before[i]));
                let k = choose|k: int| 0 <= k < held.len() && held[k] == before[i];
                assert(all.subrange(0, held.len() as int)[k] == all[k]);
                assert(all[k] == more[i]);
            }
        }
    } else {
        assert(models =~= models.subrange(0, models.len() as int));
    }
}

/// The catalog lists every model once; the selected one comes first, and no
/// option of the configuration is missing.
pub proof fn law_catalog_models(selected: Seq<char>, config: JsonTree)
    ensures
        config::clean_list(catalog_models(selected, config)),
        text::trimmed(selected).len() > 0 ==> catalog_models(selected, config).len() > 0
            && catalog_models(selected, config)[0] == text::trimmed(selected),
        forall|i: int|
            0 <= i < config::model_options(config).len() ==> catalog_models(
                selected,
                config,
            ).contains(config::model_options(config)[i]),
{
    let empty = Seq::<Seq<char>>::empty();
    let start = config::with_model(empty, text::trimmed(selected));
    text::lemma_trimmed(selected);
    config::law_adding_a_model(empty, text::trimmed(selected));
    config::law_model_options_are_clean(config);
    lemma_with_models(start, config::model_options(config));
    if text::trimmed(selected).len() > 0 {
        let all = catalog_models(selected, config);
        assert(start[0] == text::trimmed(selected));
        assert(all.subrange(0, start.len() as int)[0] == all[0]);
    }
}

/// A level of reasoning has its effort, its description and nothing else.
pub open spec fn is_level(tree: JsonTree, effort: Seq<char>, description: Seq<char>) -> bool {
    &&& json::text_field(tree, "effort"@) == Some(effort)
    &&& json::text_field(tree, "description"@) == Some(description)
    &&& tree->Object_0.dom().len() == 2
}

proof fn lemma_level(effort: Seq<char>, description: Seq<char>)
    ensures
        is_level(reasoning_level(effort, description), effort, description),
{
    reveal_strlit("effort");
    reveal_strlit("description");
    assert("effort"@.len() != "description"@.len());
    let first = Seq::<(Seq<char>, JsonTree)>::empty().push(("effort"@, JsonTree::String(effort)));
    json::lemma_no_entries();
    json::lemma_entry_put(Seq::empty(), "effort"@, JsonTree::String(effort));
    json::lemma_entry_put(first, "description"@, JsonTree::String(description));
    assert(first.push(("description"@, JsonTree::String(description))) =~= seq![
        ("effort"@, JsonTree::String(effort)),
        ("description"@, JsonTree::String(description)),
    ]);
}

proof fn lemma_truncation_policy()
    ensures
        ({
            let policy = json::object_tree(truncation_policy());
            &&& json::text_field(policy, "mode"@) == Some("tokens"@)
            &&& json::field(policy, "limit"@) == Some(json::unsigned(10000))
            &&& policy->Object_0.dom().len() == 2
        }),
{
    reveal_strlit("mode");
    reveal_strlit("limit");
    assert("mode"@.len() != "limit"@.len());
    let first = Seq::<(Seq<char>, JsonTree)>::empty().push(("mode"@, JsonTree::String("tokens"@)));
    json::lemma_no_entries();
    json::lemma_entry_put(Seq::empty(), "mode"@, JsonTree::String("tokens"@));
    json::lemma_entry_put(first, "limit"@, json::unsigned(10000));
    assert(first.push(("limit"@, json::unsigned(10000))) =~= truncation_policy());
}

/// The description of a model names the model in its slug, its display name and its
/// description and has the given priority; everything else in it is the same for
/// every model. It has no other fields.
pub proof fn law_catalog_item(model: Seq<char>, priority: u64)
    ensures
        ({
            let item = catalog_item(model, priority);
            &&& json::text_field(item, "slug"@) == Some(model)
            &&& json::text_field(item, "display_name"@) == Some(model)
            &&& json::text_field(item, "description"@) == Some("NextAI Gateway model "@ + model)
            &&& json::text_field(item, "default_reasoning_level"@) == Some("medium"@)
            &&& json::text_field(item, "shell_type"@) == Some("shell_command"@)
            &&& json::text_field(item, "visibility"@) == Some("list"@)
            &&& json::field(item, "supported_in_api"@) == Some(JsonTree::Bool(true))
            &&& json::field(item, "priority"@) == Some(json::unsigned(priority))
            &&& json::field(item, "additional_speed_tiers"@) == Some(JsonTree::Array(Seq::empty()))
            &&& json::field(item, "service_tiers"@) == Some(JsonTree::Array(Seq::empty()))
            &&& json::field(item, "availability_nux"@) == Some(JsonTree::Null)
            &&& json::field(item, "upgrade"@) == Some(JsonTree::Null)
            &&& json::text_field(item, "base_instructions"@) == Some("You are Codex, a coding agent."@)
            &&& json::field(item, "supports_reasoning_summaries"@) == Some(JsonTree::Bool(true))
            &&& json::text_field(item, "default_reasoning_summary"@) == Some("none"@)
            &&& json::field(item, "support_verbosity"@) == Some(JsonTree::Bool(true))
            &&& json::text_field(item, "default_verbosity"@) == Some("low"@)
            &&& json::text_field(item, "apply_patch_tool_type"@) == Some("freeform"@)
            &&& json::text_field(item, "web_search_tool_type"@) == Some("text_and_image"@)
            &&& json::field(item, "supports_parallel_tool_calls"@) == Some(JsonTree::Bool(true))
            &&& json::field(item, "supports_image_detail_original"@) == Some(JsonTree::Bool(true))
            &&& json::field(item, "context_window"@) == Some(json::unsigned(128000))
            &&& json::field(item, "max_context_window"@) == Some(json::unsigned(128000))
            &&& json::field(item, "effective_context_window_percent"@) == Some(json::unsigned(95))
            &&& json::field(item, "experimental_supported_tools"@) == Some(JsonTree::Array(Seq::empty()))
            &&& json::field(item, "supports_search_tool"@) == Some(JsonTree::Bool(true))
            &&& json::array_field(item, "supported_reasoning_levels"@) matches Some(levels)
            &&& levels.len() == 4
            &&& is_level(levels[0], "low"@, "Low reasoning"@)
            &&& is_level(levels[1], "medium"@, "Medium reasoning"@)
            &&& is_level(levels[2], "high"@, "High reasoning"@)
            &&& is_level(levels[3], "xhigh"@, "Extra high reasoning"@)
            &&& json::field(item, "truncation_policy"@) matches Some(policy)
            &&& json::text_field(policy, "mode"@) == Some("tokens"@)
            &&& json::field(policy, "limit"@) == Some(json::unsigned(10000))
            &&& policy->Object_0.dom().len() == 2
            &&& json::array_field(item, "input_modalities"@) matches Some(kinds)
            &&& kinds == seq![JsonTree::String("text"@), JsonTree::String("image"@)]
            &&& item->Object_0.dom().len() == 29
        }),
{
    reveal_strlit("slug");
    reveal_strlit("display_name");
    reveal_strlit("description");
    reveal_strlit("default_reasoning_level");
    reveal_strlit("supported_reasoning_levels");
    reveal_strlit("shell_type");
    reveal_strlit("visibility");
    reveal_strlit("supported_in_api");
    reveal_strlit("priority");
    reveal_strlit("additional_speed_tiers");
    reveal_strlit("service_tiers");
    reveal_strlit("availability_nux");
    reveal_strlit("upgrade");
    reveal_strlit("base_instructions");
    reveal_strlit("supports_reasoning_summaries");
    reveal_strlit("default_reasoning_summary");
    reveal_strlit("support_verbosity");
    reveal_strlit("default_verbosity");
    reveal_strlit("apply_patch_tool_type");
    reveal_strlit("web_search_tool_type");
    reveal_strlit("truncation_policy");
    reveal_strlit("supports_parallel_tool_calls");
    reveal_strlit("supports_image_detail_original");
    reveal_strlit("context_window");
    reveal_strlit("max_context_window");
    reveal_strlit("effective_context_window_percent");
    reveal_strlit("experimental_supported_tools");
    reveal_strlit("input_modalities");
    reveal_strlit("supports_search_tool");
    assert("slug"@.len() == 4);
    assert("display_name"@.len() == 12);
    assert("description"@.len() == 11);
    assert("default_reasoning_level"@.len() == 23);
    assert("supported_reasoning_levels"@.len() == 26);
    assert("shell_type"@.len() == 10);
    assert("visibility"@.len() == 10);
    assert("supported_in_api"@.len() == 16);
    assert("priority"@.len() == 8);
    assert("additional_speed_tiers"@.len() == 22);
    assert("service_tiers"@.len() == 13);
    assert("availability_nux"@.len() == 16);
    assert("upgrade"@.len() == 7);
    assert("base_instructions"@.len() == 17);
    assert("supports_reasoning_summaries"@.len() == 28);
    assert("default_reasoning_summary"@.len() == 25);
    assert("support_verbosity"@.len() == 17);
    assert("default_verbosity"@.len() == 17);
    assert("apply_patch_tool_type"@.len() == 21);
    assert("web_search_tool_type"@.len() == 20);
    assert("truncation_policy"@.len() == 17);
    assert("supports_parallel_tool_calls"@.len() == 28);
    assert("supports_image_detail_original"@.len() == 30);
    assert("context_window"@.len() == 14);
    assert("max_context_window"@.len() == 18);
    assert("effective_context_window_percent"@.len() == 32);
    assert("experimental_supported_tools"@.len() == 28);
    assert("input_modalities"@.len() == 16);
    assert("supports_search_tool"@.len() == 20);
    assert("shell_type"@[0] == 's');
    assert("visibility"@[0] == 'v');
    assert("supported_in_api"@[0] == 's');
    assert("availability_nux"@[0] == 'a');
    assert("input_modalities"@[0] == 'i');
    assert("base_instructions"@[0] == 'b');
    assert("support_verbosity"@[0] == 's');
    assert("default_verbosity"@[0] == 'd');
    assert("truncation_policy"@[0] == 't');
    assert("web_search_tool_type"@[0] == 'w');
    assert("supports_search_tool"@[0] == 's');
    assert("supports_reasoning_summaries"@[9] == 'r');
    assert("supports_parallel_tool_calls"@[9] == 'p');
    assert("supports_reasoning_summaries"@[0] == 's');
    assert("experimental_supported_tools"@[0] == 'e');
    assert("supports_parallel_tool_calls"@[0] == 's');
    let e0 = Seq::<(Seq<char>, JsonTree)>::empty();
    json::lemma_no_entries();
    let e1 = e0.push(("slug"@, JsonTree::String(model)));
    json::lemma_entry_put(e0, "slug"@, JsonTree::String(model));
    let e2 = e1.push(("display_name"@, JsonTree::String(model)));
    json::lemma_entry_put(e1, "display_name"@, JsonTree::String(model));
    let e3 = e2.push(("description"@, JsonTree::String("NextAI Gateway model "@ + model)));
    json::lemma_entry_put(e2, "description"@, JsonTree::String("NextAI Gateway model "@ + model));
    let e4 = e3.push(("default_reasoning_level"@, JsonTree::String("medium"@)));
    json::lemma_entry_put(e3, "default_reasoning_level"@, JsonTree::String("medium"@));
    let e5 = e4.push(("supported_reasoning_levels"@, JsonTree::Array(reasoning_levels())));
    json::lemma_entry_put(e4, "supported_reasoning_levels"@, JsonTree::Array(reasoning_levels()));
    let e6 = e5.push(("shell_type"@, JsonTree::String("shell_command"@)));
    json::lemma_entry_put(e5, "shell_type"@, JsonTree::String("shell_command"@));
    let e7 = e6.push(("visibility"@, JsonTree::String("list"@)));
    json::lemma_entry_put(e6, "visibility"@, JsonTree::String("list"@));
    let e8 = e7.push(("supported_in_api"@, JsonTree::Bool(true)));
    json::lemma_entry_put(e7, "supported_in_api"@, JsonTree::Bool(true));
    let e9 = e8.push(("priority"@, json::unsigned(priority)));
    json::lemma_entry_put(e8, "priority"@, json::unsigned(priority));
    let e10 = e9.push(("additional_speed_tiers"@, JsonTree::Array(Seq::empty())));
    json::lemma_entry_put(e9, "additional_speed_tiers"@, JsonTree::Array(Seq::empty()));
    let e11 = e10.push(("service_tiers"@, JsonTree::Array(Seq::empty())));
    json::lemma_entry_put(e10, "service_tiers"@, JsonTree::Array(Seq::empty()));
    let e12 = e11.push(("availability_nux"@, JsonTree::Null));
    json::lemma_entry_put(e11, "availability_nux"@, JsonTree::Null);
    let e13 = e12.push(("upgrade"@, JsonTree::Null));
    json::lemma_entry_put(e12, "upgrade"@, JsonTree::Null);
    let e14 = e13.push(("base_instructions"@, JsonTree::String("You are Codex, a coding agent."@)));
    json::lemma_entry_put(e13, "base_instructions"@, JsonTree::String("You are Codex, a coding agent."@));
    let e15 = e14.push(("supports_reasoning_summaries"@, JsonTree::Bool(true)));
    json::lemma_entry_put(e14, "supports_reasoning_summaries"@, JsonTree::Bool(true));
    let e16 = e15.push(("default_reasoning_summary"@, JsonTree::String("none"@)));
    json::lemma_entry_put(e15, "default_reasoning_summary"@, JsonTree::String("none"@));
    let e17 = e16.push(("support_verbosity"@, JsonTree::Bool(true)));
    json::lemma_entry_put(e16, "support_verbosity"@, JsonTree::Bool(true));
    let e18 = e17.push(("default_verbosity"@, JsonTree::String("low"@)));
    json::lemma_entry_put(e17, "default_verbosity"@, JsonTree::String("low"@));
    let e19 = e18.push(("apply_patch_tool_type"@, JsonTree::String("freeform"@)));
    json::lemma_entry_put(e18, "apply_patch_tool_type"@, JsonTree::String("freeform"@));
    let e20 = e19.push(("web_search_tool_type"@, JsonTree::String("text_and_image"@)));
    json::lemma_entry_put(e19, "web_search_tool_type"@, JsonTree::String("text_and_image"@));
    let e21 = e20.push(("truncation_policy"@, json::object_tree(truncation_policy())));
    json::lemma_entry_put(e20, "truncation_policy"@, json::object_tree(truncation_policy()));
    let e22 = e21.push(("supports_parallel_tool_calls"@, JsonTree::Bool(true)));
    json::lemma_entry_put(e21, "supports_parallel_tool_calls"@, JsonTree::Bool(true));
    let e23 = e22.push(("supports_image_detail_original"@, JsonTree::Bool(true)));
    json::lemma_entry_put(e22, "supports_image_detail_original"@, JsonTree::Bool(true));
    let e24 = e23.push(("context_window"@, json::unsigned(128000)));
    json::lemma_entry_put(e23, "context_window"@, json::unsigned(128000));
    let e25 = e24.push(("max_context_window"@, json::unsigned(128000)));
    json::lemma_entry_put(e24, "max_context_window"@, json::unsigned(128000));
    let e26 = e25.push(("effective_context_window_percent"@, json::unsigned(95)));
    json::lemma_entry_put(e25, "effective_context_window_percent"@, json::unsigned(95));
    let e27 = e26.push(("experimental_supported_tools"@, JsonTree::Array(Seq::empty())));
    json::lemma_entry_put(e26, "experimental_supported_tools"@, JsonTree::Array(Seq::empty()));
    let e28 = e27.push(("input_modalities"@, JsonTree::Array(input_modalities())));
    json::lemma_entry_put(e27, "input_modalities"@, JsonTree::Array(input_modalities()));
    let e29 = e28.push(("supports_search_tool"@, JsonTree::Bool(true)));
    json::lemma_entry_put(e28, "supports_search_tool"@, JsonTree::Bool(true));
    assert(e29 == catalog_entries(model, priority));
    lemma_level("low"@, "Low reasoning"@);
    lemma_level("medium"@, "Medium reasoning"@);
    lemma_level("high"@, "High reasoning"@);
    lemma_level("xhigh"@, "Extra high reasoning"@);
    lemma_truncation_policy();
}


/// `tree` lists `models`: its models are as many as these, in the same order, each
/// with its slug and with its place as its priority.
pub open spec fn lists_models(tree: JsonTree, models: Seq<Seq<char>>) -> bool {
    &&& json::array_field(tree, "models"@) matches Some(items)
    &&& items.len() == models.len()
    &&& forall|i: int|
        0 <= i < items.len() ==> json::text_field(#[trigger] items[i], "slug"@) == Some(models[i])
            && json::field(items[i], "priority"@) == Some(json::unsigned(i as u64))
}

/// The catalog has as many descriptions under `models` as there are models, in the
/// same order: each has the slug of its model and its place as its priority. It
/// holds nothing else.
pub proof fn law_catalog(models: Seq<Seq<char>>)
    ensures
        json::array_field(catalog(models), "models"@) matches Some(items) && items.len()
            == models.len() && forall|i: int|
            0 <= i < models.len() ==> #[trigger] items[i] == catalog_item(models[i], i as u64)
                && json::text_field(items[i], "slug"@) == Some(models[i]) && json::field(
                items[i],
                "priority"@,
            ) == Some(json::unsigned(i as u64)),
        catalog(models)->Object_0.dom().len() == 1,
        lists_models(catalog(models), models),
{
    let items = Seq::new(models.len(), |i: int| catalog_item(models[i], i as u64));
    json::lemma_no_entries();
    json::lemma_entry_put(Seq::empty(), "models"@, JsonTree::Array(items));
    assert(Seq::empty().push(("models"@, JsonTree::Array(items))) =~= seq![
        ("models"@, JsonTree::Array(items)),
    ]);
    assert forall|i: int| 0 <= i < models.len() implies json::text_field(
        #[trigger] items[i],
        "slug"@,
    ) == Some(models[i]) && json::field(items[i], "priority"@) == Some(json::unsigned(i as u64)) by {
        law_catalog_item(models[i], i as u64);
    }
}

/// Two lists of models with one catalog are the same list.
pub proof fn law_catalog_tells_its_models(a: Seq<Seq<char>>, b: Seq<Seq<char>>)
    requires
        catalog(a) == catalog(b),
    ensures
        a == b,
{
    law_catalog(a);
    law_catalog(b);
    let items = json::array_field(catalog(a), "models"@)->Some_0;
    assert forall|i: int| 0 <= i < a.len() implies a[i] == b[i] by {
        assert(json::text_field(items[i], "slug"@) == Some(a[i]));
    }
    assert(a =~= b);
}

proof fn lemma_more_models(first: Seq<Seq<char>>, more: Seq<Seq<char>>, n: int)
    requires
        config::clean_list(more),
        first.len() <= 1,
        0 <= n <= more.len(),
    ensures
        (first.len() == 0 || !more.take(n).contains(first[0])) ==> with_models(first, more.take(n))
            == first + more.take(n),
        forall|k: int|
            first.len() == 1 && 0 <= k < n && #[trigger] more[k] == first[0] ==> with_models(
                first,
                more.take(n),
            ) == first + more.take(n).remove(k),
    decreases n,
{
    if n == 0 {
        assert(first + more.take(0) =~= first);
    } else {
        lemma_more_models(first, more, n - 1);
        let before = more.take(n - 1);
        let all = more.take(n);
        let last = more[n - 1];
        assert(all.drop_last() =~= before);
        assert(all.last() == last);
        assert(last.len() > 0 && text::trimmed(last) == last);
        assert forall|j: int| 0 <= j < before.len() implies before[j] != last by {
            assert(before[j] == more[j]);
        }
        if first.len() == 0 || !all.contains(first[0]) {
            if first.len() == 1 {
                if before.contains(first[0]) {
                    let j = choose|j: int| 0 <= j < before.len() && before[j] == first[0];
                    assert(all[j] == first[0]);
                }
                assert(all[n - 1] == last);
            }
            let held = first + before;
            assert forall|j: int| 0 <= j < held.len() implies held[j] != last by {
                if j >= first.len() {
                    assert(held[j] == before[j - first.len()]);
                }
            }
            assert(held.push(last) =~= first + all);
        }
        assert forall|k: int|
            first.len() == 1 && 0 <= k < n && #[trigger] more[k] == first[0] implies with_models(
            first,
            all,
        ) == first + all.remove(k) by {
            if k == n - 1 {
                assert forall|j: int| 0 <= j < before.len() implies before[j] != first[0] by {}
                assert(!before.contains(first[0]));
                let held = first + before;
                assert(held[0] == last);
                assert(held.contains(last));
                assert(all.remove(k) =~= before);
            } else {
                let held = first + before.remove(k);
                assert forall|j: int| 0 <= j < held.len() implies held[j] != last by {
                    if j == 0 {
                        assert(more[k] != more[n - 1]);
                    } else {
                        assert(held[j] == before.remove(k)[j - 1]);
                    }
                }
                assert(held.push(last) =~= first + all.remove(k));
            }
        }
    }
}

/// The models of the catalog are those that the configuration offers, in their
/// order, behind the selected one; where that one is offered too it is not listed
/// twice, and where none is selected the others stand alone.
pub proof fn law_selected_model_comes_first(selected: Seq<char>, config: JsonTree, k: int)
    ensures
        ({
            let first = text::trimmed(selected);
            let options = config::model_options(config);
            let models = catalog_models(selected, config);
            &&& first.len() == 0 ==> models == options
            &&& first.len() > 0 && !options.contains(first) ==> models == seq![first] + options
            &&& first.len() > 0 && 0 <= k < options.len() && options[k] == first ==> models
                == seq![first] + options.remove(k)
        }),
{
    let first = text::trimmed(selected);
    let options = config::model_options(config);
    let empty = Seq::<Seq<char>>::empty();
    text::lemma_trimmed(selected);
    config::law_model_options_are_clean(config);
    let start = config::with_model(empty, first);
    assert(!empty.contains(first));
    if first.len() > 0 {
        assert(start =~= seq![first]);
    }
    lemma_more_models(start, options, options.len() as int);
    assert(options.take(options.len() as int) =~= options);
    assert(empty + options =~= options);
}

proof fn lemma_level_reads_back(effort: Seq<char>, description: Seq<char>)
    ensures
        json_text::reads_back(reasoning_level(effort, description), 123),
{
    json_text::lemma_object_reads_back(
        seq![("effort"@, JsonTree::String(effort)), ("description"@, JsonTree::String(description))],
        123,
    );
}

proof fn lemma_item_reads_back(model: Seq<char>, priority: u64)
    ensures
        json_text::reads_back(catalog_item(model, priority), 125),
{
    let levels = reasoning_levels();
    assert forall|i: int| 0 <= i < levels.len() implies json_text::reads_back(
        #[trigger] levels[i],
        123,
    ) by {
        lemma_level_reads_back("low"@, "Low reasoning"@);
        lemma_level_reads_back("medium"@, "Medium reasoning"@);
        lemma_level_reads_back("high"@, "High reasoning"@);
        lemma_level_reads_back("xhigh"@, "Extra high reasoning"@);
    }
    json_text::lemma_array_reads_back(levels, 124);
    json_text::lemma_array_reads_back(input_modalities(), 124);
    json_text::lemma_array_reads_back(Seq::empty(), 124);
    json_text::lemma_object_reads_back(truncation_policy(), 124);
    json_text::lemma_object_reads_back(catalog_entries(model, priority), 125);
}

proof fn lemma_catalog_reads_back(models: Seq<Seq<char>>)
    ensures
        json_text::reads_back(catalog(models), 127),
{
    let items = Seq::new(models.len(), |i: int| catalog_item(models[i], i as u64));
    assert forall|i: int| 0 <= i < items.len() implies json_text::reads_back(
        #[trigger] items[i],
        125,
    ) by {
        lemma_item_reads_back(models[i], i as u64);
    }
    json_text::lemma_array_reads_back(items, 126);
    let entries = seq![("models"@, JsonTree::Array(items))];
    json_text::lemma_object_reads_back(entries, 127);
}

/// A level of reasoning and what it is called.
fn reasoning_level_item(effort: &str, description: &str) -> (r: Json)
    ensures
        r@ == reasoning_level(effort@, description@),
{
    let mut entries = new_entries();
    put(&mut entries, "effort", json_text(effort));
    put(&mut entries, "description", json_text(description));
    proof {
        assert(json::entries_tree(entries@) =~= seq![
            ("effort"@, JsonTree::String(effort@)),
            ("description"@, JsonTree::String(description@)),
        ]);
    }
    json_object(entries)
}

/// The description of a model.
pub fn codex_model_catalog_item(model: &str, priority: u64) -> (r: Json)
    ensures
        r@ == catalog_item(model@, priority),
{
    let mut levels = new_items();
    push_item(&mut levels, reasoning_level_item("low", "Low reasoning"));
    push_item(&mut levels, reasoning_level_item("medium", "Medium reasoning"));
    push_item(&mut levels, reasoning_level_item("high", "High reasoning"));
    push_item(&mut levels, reasoning_level_item("xhigh", "Extra high reasoning"));
    proof {
        assert(json::items_tree(levels@) =~= reasoning_levels());
    }

    let mut policy = new_entries();
    put(&mut policy, "mode", json_text("tokens"));
    put(&mut policy, "limit", json_number(10000));
    proof {
        assert(json::entries_tree(policy@) =~= truncation_policy());
    }

    let mut modalities = new_items();
    push_item(&mut modalities, json_text("text"));
    push_item(&mut modalities, json_text("image"));
    proof {
        assert(json::items_tree(modalities@) =~= input_modalities());
    }

    let description = joined("NextAI Gateway model ", model);
    let mut entries = new_entries();
    put(&mut entries, "slug", json_text(model));
    put(&mut entries, "display_name", json_text(model));
    put(&mut entries, "description", json_text(description.as_str()));
    put(&mut entries, "default_reasoning_level", json_text("medium"));
    put(&mut entries, "supported_reasoning_levels", json_array(levels));
    put(&mut entries, "shell_type", json_text("shell_command"));
    put(&mut entries, "visibility", json_text("list"));
    put(&mut entries, "supported_in_api", Json::Bool(true));
    put(&mut entries, "priority", json_number(priority));
    put(&mut entries, "additional_speed_tiers", json_array(new_items()));
    put(&mut entries, "service_tiers", json_array(new_items()));
    put(&mut entries, "availability_nux", Json::Null);
    put(&mut entries, "upgrade", Json::Null);
    put(&mut entries, "base_instructions", json_text("You are Codex, a coding agent."));
    put(&mut entries, "supports_reasoning_summaries", Json::Bool(true));
    put(&mut entries, "default_reasoning_summary", json_text("none"));
    put(&mut entries, "support_verbosity", Json::Bool(true));
    put(&mut entries, "default_verbosity", json_text("low"));
    put(&mut entries, "apply_patch_tool_type", json_text("freeform"));
    put(&mut entries, "web_search_tool_type", json_text("text_and_image"));
    put(&mut entries, "truncation_policy", json_object(policy));
    put(&mut entries, "supports_parallel_tool_calls", Json::Bool(true));
    put(&mut entries, "supports_image_detail_original", Json::Bool(true));
    put(&mut entries, "context_window", json_number(128000));
    put(&mut entries, "max_context_window", json_number(128000));
    put(&mut entries, "effective_context_window_percent", json_number(95));
    put(&mut entries, "experimental_supported_tools", json_array(new_items()));
    put(&mut entries, "input_modalities", json_array(modalities));
    put(&mut entries, "supports_search_tool", Json::Bool(true));
    proof {
        assert(json::entries_tree(entries@) =~= catalog_entries(model@, priority));
    }
    json_object(entries)
}

/// The catalog of `models`.
pub fn codex_model_catalog(models: &Vec<String>) -> (r: Json)
    ensures
        r@ == catalog(text::texts(models@)),
        lists_models(r@, text::texts(models@)),
{
    let mut items = new_items();
    let mut i: usize = 0;
    while i < models.len()
        invariant
            i <= models.len(),
            json::items_tree(items@) == Seq::new(
                i as nat,
                |j: int| catalog_item(text::texts(models@)[j], j as u64),
            ),
        decreases models.len() - i,
    {
        let item = codex_model_catalog_item(models[i].as_str(), i as u64);
        push_item(&mut items, item);
        i = i + 1;
    }
    let mut entries = new_entries();
    put(&mut entries, "models", json_array(items));
    proof {
        law_catalog(text::texts(models@));
    }
    json_object(entries)
}

/// Appends the models that are not blank and not there yet.
fn push_models(models: &mut Vec<String>, more: &Vec<String>)
    ensures
        text::texts(final(models)@) == with_models(
            text::texts(old(models)@),
            text::texts(more@),
        ),
{
    let mut i: usize = 0;
    while i < more.len()
        invariant
            i <= more.len(),
            text::texts(models@) == with_models(
                text::texts(old(models)@),
                text::texts(more@).take(i as int),
            ),
        decreases more.len() - i,
    {
        proof {
            let seen = text::texts(more@).take(i + 1);
            assert(seen.drop_last() =~= text::texts(more@).take(i as int));
            assert(seen.last() == more@[i as int]@);
        }
        push_unique_model(models, more[i].as_str());
        i = i + 1;
    }
    proof {
        assert(text::texts(more@).take(i as int) =~= text::texts(more@));
    }
}

/// The models of the catalog for a configuration.
pub fn codex_catalog_models(selected_model: &str, config: &Json) -> (r: Vec<String>)
    ensures
        text::texts(r@) == catalog_models(selected_model@, config@),
{
    let mut models: Vec<String> = Vec::new();
    proof {
        assert(text::texts(models@) =~= Seq::<Seq<char>>::empty());
    }
    push_unique_model(&mut models, trim(selected_model));
    let options = gateway_model_options_from_config(config);
    push_models(&mut models, &options);
    models
}

/// The text of the catalog file for the configuration text `content`. There must
/// be at least one model. What is written reads back as the catalog.
pub fn write_codex_model_catalog(selected_model: &str, content: &str) -> (r: Result<String, String>)
    ensures
        match config::config_read(content@) {
            Ok(config) => {
                let models = catalog_models(selected_model@, config);
                if models.len() == 0 {
                    r is Err && r->Err_0@ == "Gateway model catalog requires at least one model"@
                } else {
                    &&& r is Ok
                    &&& r->Ok_0@ == json_text::line(json_text::json_pretty(catalog(models)))
                    &&& json_text::denotes(r->Ok_0@, catalog(models))
                    &&& lists_models(catalog(models), models)
                }
            },
            Err(message) => r is Err && r->Err_0@ == message,
        },
{
    let file = match read_gateway_config("", content) {
        Ok(file) => file,
        Err(message) => return Err(message),
    };
    let models = codex_catalog_models(selected_model, &file.config);
    if models.len() == 0 {
        return Err("Gateway model catalog requires at least one model".to_owned());
    }
    proof {
        lemma_catalog_reads_back(text::texts(models@));
        law_catalog(text::texts(models@));
    }
    match print_json(codex_model_catalog(&models)) {
        Ok(printed) => Ok(printed.text),
        Err(message) => Err(message),
    }
}

} // verus!
