//! The configuration of the gateway: what its file must hold, and what the
//! other parts of the application take from it.

use vstd::prelude::*;

use crate::gateway::origin;
use crate::gateway::origin::{origin_text, reachable_host};
use crate::json;
use crate::json::{Json, JsonNumber, JsonTree, bool_field};
use crate::json::{json_array, json_number, json_object, json_text, new_entries, new_items, put};
use crate::json_text;
use crate::json_text::{parse_json, print_json};
use crate::selection;
use crate::text;
use crate::text::{holds_text, joined, push_text, split, starts_with, trim, trim_start_matches};

verus! {

/// The name under which the gateway is registered as a provider.
pub const NEXT_AI_GATEWAY_PROVIDER_NAME: &'static str = "next-ai-gateway";

/// The key that stands in where the configuration asks for none.
pub const NEXT_AI_GATEWAY_API_KEY: &'static str = "codexl-next-ai-gateway";

/// A configuration and the file that it is in.
#[derive(Debug)]
pub struct GatewayConfigFile {
    pub path: String,
    pub config: Json,
}

/// The filled text under `name`.
pub open spec fn filled_field(tree: JsonTree, name: Seq<char>) -> Option<Seq<char>> {
    text::filled(json::text_field(tree, name))
}

/// The first of two answers, or else the second.
pub open spec fn either(first: Option<Seq<char>>, second: Option<Seq<char>>) -> Option<Seq<char>> {
    if first is Some {
        first
    } else {
        second
    }
}

/// The name of a model: the item itself where it is text, or what it calls its
/// name, its id or its model.
pub open spec fn model_name(item: JsonTree) -> Option<Seq<char>> {
    either(
        text::filled(json::text_value(item)),
        either(
            filled_field(item, "name"@),
            either(filled_field(item, "id"@), filled_field(item, "model"@)),
        ),
    )
}

/// The names of the items that have one, in their order.
pub open spec fn model_names(items: Seq<JsonTree>) -> Seq<Seq<char>>
    decreases items.len(),
{
    if items.len() == 0 {
        Seq::empty()
    } else {
        match model_name(items.last()) {
            Some(name) => model_names(items.drop_last()).push(name),
            None => model_names(items.drop_last()),
        }
    }
}

/// The texts that are not blank, without the white space around them.
pub open spec fn filled_texts(pieces: Seq<Seq<char>>) -> Seq<Seq<char>>
    decreases pieces.len(),
{
    if pieces.len() == 0 {
        Seq::empty()
    } else if text::trimmed(pieces.last()).len() > 0 {
        filled_texts(pieces.drop_last()).push(text::trimmed(pieces.last()))
    } else {
        filled_texts(pieces.drop_last())
    }
}

/// The filled parts of a list that is written with commas.
pub open spec fn comma_items(s: Seq<char>) -> Seq<Seq<char>> {
    filled_texts(text::split_on(s, ','))
}

/// The models that a provider offers.
pub open spec fn provider_models(provider: JsonTree) -> Seq<Seq<char>> {
    match json::field(provider, "models"@) {
        Some(JsonTree::Array(items)) => model_names(items),
        Some(JsonTree::String(list)) => comma_items(list),
        _ => Seq::empty(),
    }
}

/// The option for a model of a provider: the model's name behind the provider's,
/// unless it stands there already. Empty where one of the two is missing.
pub open spec fn model_option(provider: Seq<char>, model: Seq<char>) -> Seq<char> {
    let owner = text::trimmed(provider);
    let name = text::trim_start_of(text::trimmed(model), '/');
    if owner.len() == 0 || name.len() == 0 {
        Seq::empty()
    } else if (owner + "/"@).is_prefix_of(name) {
        name
    } else {
        owner + "/"@ + name
    }
}

/// `models` with `model` behind it, unless `model` is blank or there already.
pub open spec fn with_model(models: Seq<Seq<char>>, model: Seq<char>) -> Seq<Seq<char>> {
    let name = text::trimmed(model);
    if name.len() > 0 && !models.contains(name) {
        models.push(name)
    } else {
        models
    }
}

/// `models` with the options for `names` behind it.
pub open spec fn with_options(
    models: Seq<Seq<char>>,
    provider: Seq<char>,
    names: Seq<Seq<char>>,
) -> Seq<Seq<char>>
    decreases names.len(),
{
    if names.len() == 0 {
        models
    } else {
        with_model(
            with_options(models, provider, names.drop_last()),
            model_option(provider, names.last()),
        )
    }
}

/// The trimmed name of a provider; empty where it has none.
pub open spec fn provider_name(provider: JsonTree) -> Seq<char> {
    match json::text_field(provider, "name"@) {
        Some(name) => text::trimmed(name),
        None => Seq::empty(),
    }
}

/// The options for the models of `providers`, one after the other. Providers
/// without a name are passed over.
pub open spec fn provider_options(providers: Seq<JsonTree>) -> Seq<Seq<char>>
    decreases providers.len(),
{
    if providers.len() == 0 {
        Seq::empty()
    } else {
        let before = provider_options(providers.drop_last());
        let name = provider_name(providers.last());
        if name.len() == 0 {
            before
        } else {
            with_options(before, name, provider_models(providers.last()))
        }
    }
}

/// The elements of the array under `name`; none where there is no array.
pub open spec fn listed(tree: JsonTree, name: Seq<char>) -> Seq<JsonTree> {
    match json::array_field(tree, name) {
        Some(items) => items,
        None => Seq::empty(),
    }
}

/// The model options of a configuration.
pub open spec fn model_options(config: JsonTree) -> Seq<Seq<char>> {
    provider_options(listed(config, "Providers"@) + listed(config, "providers"@))
}

/// The port of a configuration: a whole number that a port can be, or the
/// standard one.
pub open spec fn gateway_port(config: JsonTree) -> u64 {
    match json::field(config, "port"@) {
        Some(value) => match json::u64_value(value) {
            Some(port) => if 0 < port <= 65535 {
                port
            } else {
                14589
            },
            None => 14589,
        },
        None => 14589,
    }
}

/// The origin at which the gateway of a configuration is reached.
pub open spec fn gateway_origin(config: JsonTree) -> Seq<char> {
    let host = match filled_field(config, "host"@) {
        Some(host) => host,
        None => "127.0.0.1"@,
    };
    origin::http_origin(origin::connect_host(host), gateway_port(config) as nat)
}

/// The key that an item is or holds.
pub open spec fn item_key(item: JsonTree) -> Option<Seq<char>> {
    either(
        text::filled(json::text_value(item)),
        either(
            filled_field(item, "key"@),
            either(
                filled_field(item, "apiKey"@),
                either(filled_field(item, "api_key"@), filled_field(item, "token"@)),
            ),
        ),
    )
}

/// The key of the first item that has one.
pub open spec fn first_key(items: Seq<JsonTree>) -> Option<Seq<char>>
    decreases items.len(),
{
    if items.len() == 0 {
        None
    } else {
        either(item_key(items[0]), first_key(items.drop_first()))
    }
}

/// The first key of a value that is a list.
pub open spec fn key_in(value: Option<JsonTree>) -> Option<Seq<char>> {
    match value {
        Some(JsonTree::Array(items)) => first_key(items),
        _ => None,
    }
}

/// The value under `name` of a value that may be missing.
pub open spec fn inner(value: Option<JsonTree>, name: Seq<char>) -> Option<JsonTree> {
    match value {
        Some(tree) => json::field(tree, name),
        None => None,
    }
}

/// The key to present to the gateway of a configuration.
pub open spec fn provider_api_key(config: JsonTree) -> Seq<char> {
    let auth = json::field(config, "auth"@);
    let enabled = match auth {
        Some(tree) => json::bool_field_value(tree, "enabled"@),
        None => false,
    };
    let key = either(
        key_in(inner(auth, "principals"@)),
        either(
            key_in(inner(auth, "keys"@)),
            either(
                key_in(json::field(config, "principals"@)),
                key_in(json::field(config, "keys"@)),
            ),
        ),
    );
    if enabled && key is Some {
        key->0
    } else {
        NEXT_AI_GATEWAY_API_KEY@
    }
}

/// What the text of a configuration file holds: the configuration, or the reason
/// why it is none.
pub open spec fn config_read(content: Seq<char>) -> Result<JsonTree, Seq<char>> {
    match json_text::json_parsed(content) {
        Ok(tree) => if tree is Object {
            Ok(tree)
        } else {
            Err("Gateway config must be a JSON object"@)
        },
        Err(message) => Err(message),
    }
}

/// The text without the white space around it, unless it is blank.
fn filled_text(text: Option<&str>) -> (r: Option<&str>)
    ensures
        text::opt_text(r) == text::filled(text::opt_text(text)),
{
    match text {
        Some(s) => {
            let inside = trim(s);
            if inside.is_empty() {
                None
            } else {
                Some(inside)
            }
        },
        None => None,
    }
}

/// The filled text under `name`, as a copy.
fn filled_copy(item: &Json, name: &str) -> (r: Option<String>)
    ensures
        text::opt_string(r) == filled_field(item@, name@),
{
    match filled_text(item.get_str(name)) {
        Some(s) => Some(s.to_owned()),
        None => None,
    }
}

/// The name of a model.
pub fn gateway_model_name(item: &Json) -> (r: Option<String>)
    ensures
        text::opt_string(r) == model_name(item@),
{
    if let Some(model) = filled_text(item.as_str()) {
        return Some(model.to_owned());
    }
    if let Some(model) = filled_copy(item, "name") {
        return Some(model);
    }
    if let Some(model) = filled_copy(item, "id") {
        return Some(model);
    }
    filled_copy(item, "model")
}

/// The filled parts of a list that is written with commas.
pub fn comma_list(value: &str) -> (r: Vec<String>)
    ensures
        text::texts(r@) == comma_items(value@),
{
    let pieces = split(value, ',');
    let mut out: Vec<String> = Vec::new();
    let mut i: usize = 0;
    proof {
        assert(text::texts(out@) =~= filled_texts(text::texts(pieces@).take(0)));
    }
    while i < pieces.len()
        invariant
            i <= pieces.len(),
            text::texts(pieces@) == text::split_on(value@, ','),
            text::texts(out@) == filled_texts(text::texts(pieces@).take(i as int)),
        decreases pieces.len() - i,
    {
        let piece = trim(pieces[i].as_str());
        proof {
            let seen = text::texts(pieces@).take(i + 1);
            assert(seen.drop_last() =~= text::texts(pieces@).take(i as int));
            assert(seen.last() == pieces@[i as int]@);
        }
        if !piece.is_empty() {
            push_text(&mut out, piece.to_owned());
        }
        i = i + 1;
    }
    proof {
        assert(text::texts(pieces@).take(i as int) =~= text::texts(pieces@));
    }
    out
}

/// The models that a provider offers.
pub fn gateway_provider_models(provider: &Json) -> (r: Vec<String>)
    ensures
        text::texts(r@) == provider_models(provider@),
{
    let mut names: Vec<String> = Vec::new();
    proof {
        assert(text::texts(names@) =~= Seq::<Seq<char>>::empty());
    }
    match provider.get("models") {
        Some(models) => {
            if let Some(items) = models.as_array() {
                let mut i: usize = 0;
                proof {
                    assert(text::texts(names@) =~= model_names(json::items_tree(items@).take(0)));
                }
                while i < items.len()
                    invariant
                        i <= items.len(),
                        text::texts(names@) == model_names(
                            json::items_tree(items@).take(i as int),
                        ),
                    decreases items.len() - i,
                {
                    proof {
                        let seen = json::items_tree(items@).take(i + 1);
                        assert(seen.drop_last() =~= json::items_tree(items@).take(i as int));
                        assert(seen.last() == items@[i as int]@);
                    }
                    if let Some(name) = gateway_model_name(&items[i]) {
                        push_text(&mut names, name);
                    }
                    i = i + 1;
                }
                proof {
                    assert(json::items_tree(items@).take(i as int) =~= json::items_tree(items@));
                }
                names
            } else if let Some(list) = models.as_str() {
                comma_list(list)
            } else {
                names
            }
        },
        None => names,
    }
}

/// The option for a model of a provider.
pub fn gateway_model_option(provider_name: &str, model_name: &str) -> (r: String)
    ensures
        r@ == model_option(provider_name@, model_name@),
{
    let provider = trim(provider_name);
    let model = trim_start_matches(trim(model_name), '/');
    if provider.is_empty() || model.is_empty() {
        return String::new();
    }
    let mut option = joined(provider, "/");
    if starts_with(model, option.as_str()) {
        model.to_owned()
    } else {
        option.append(model);
        option
    }
}

/// Appends a model to a list, unless it is blank or there already.
pub fn push_unique_model(models: &mut Vec<String>, model: &str)
    ensures
        text::texts(final(models)@) == with_model(text::texts(old(models)@), model@),
{
    let model = trim(model);
    if !model.is_empty() && !holds_text(models, model) {
        push_text(models, model.to_owned());
    }
}

/// Appends the options for a provider's models.
fn push_provider_options(models: &mut Vec<String>, provider_name: &str, names: &Vec<String>)
    ensures
        text::texts(final(models)@) == with_options(
            text::texts(old(models)@),
            provider_name@,
            text::texts(names@),
        ),
{
    let mut i: usize = 0;
    while i < names.len()
        invariant
            i <= names.len(),
            text::texts(models@) == with_options(
                text::texts(old(models)@),
                provider_name@,
                text::texts(names@).take(i as int),
            ),
        decreases names.len() - i,
    {
        proof {
            let seen = text::texts(names@).take(i + 1);
            assert(seen.drop_last() =~= text::texts(names@).take(i as int));
            assert(seen.last() == names@[i as int]@);
        }
        let option = gateway_model_option(provider_name, names[i].as_str());
        push_unique_model(models, option.as_str());
        i = i + 1;
    }
    proof {
        assert(text::texts(names@).take(i as int) =~= text::texts(names@));
    }
}

/// Appends the options for the models of `providers`, which follow `before`.
fn push_providers(models: &mut Vec<String>, providers: &Vec<Json>, Ghost(before): Ghost<Seq<JsonTree>>)
    requires
        text::texts(old(models)@) == provider_options(before),
    ensures
        text::texts(final(models)@) == provider_options(before + json::items_tree(providers@)),
{
    let mut i: usize = 0;
    proof {
        assert(before + json::items_tree(providers@).take(0) =~= before);
    }
    while i < providers.len()
        invariant
            i <= providers.len(),
            text::texts(models@) == provider_options(
                before + json::items_tree(providers@).take(i as int),
            ),
        decreases providers.len() - i,
    {
        let provider = &providers[i];
        proof {
            let seen = before + json::items_tree(providers@).take(i + 1);
            assert(seen.drop_last() =~= before + json::items_tree(providers@).take(i as int));
            assert(seen.last() == provider@);
        }
        let name = match provider.get_str("name") {
            Some(name) => trim(name),
            None => "",
        };
        proof {
            reveal_strlit("");
            assert(name@ =~= provider_name(provider@));
        }
        if !name.is_empty() {
            let names = gateway_provider_models(provider);
            push_provider_options(models, name, &names);
        }
        i = i + 1;
    }
    proof {
        assert(json::items_tree(providers@).take(i as int) =~= json::items_tree(providers@));
    }
}

/// The model options of a configuration.
pub fn gateway_model_options_from_config(config: &Json) -> (r: Vec<String>)
    ensures
        text::texts(r@) == model_options(config@),
{
    let mut models: Vec<String> = Vec::new();
    let ghost upper = listed(config@, "Providers"@);
    let ghost lower = listed(config@, "providers"@);
    proof {
        assert(text::texts(models@) =~= Seq::<Seq<char>>::empty());
        assert(Seq::<JsonTree>::empty() + upper =~= upper);
        assert(upper + Seq::<JsonTree>::empty() =~= upper);
    }
    if let Some(items) = config.get_array("Providers") {
        push_providers(&mut models, items, Ghost(Seq::empty()));
    }
    if let Some(items) = config.get_array("providers") {
        push_providers(&mut models, items, Ghost(upper));
    }
    models
}

/// The origin at which the gateway of a configuration is reached.
pub fn gateway_origin_from_config(config: &Json) -> (r: String)
    ensures
        r@ == gateway_origin(config@),
{
    let host = match filled_text(config.get_str("host")) {
        Some(host) => host,
        None => "127.0.0.1",
    };
    let port: u64 = match config.get("port") {
        Some(value) => match value.as_u64() {
            Some(port) => if port > 0 && port <= 65535 {
                port
            } else {
                14589
            },
            None => 14589,
        },
        None => 14589,
    };
    origin_text(reachable_host(host), port)
}

/// The key that an item is or holds.
fn gateway_item_key(item: &Json) -> (r: Option<String>)
    ensures
        text::opt_string(r) == item_key(item@),
{
    if let Some(key) = filled_text(item.as_str()) {
        return Some(key.to_owned());
    }
    if let Some(key) = filled_copy(item, "key") {
        return Some(key);
    }
    if let Some(key) = filled_copy(item, "apiKey") {
        return Some(key);
    }
    if let Some(key) = filled_copy(item, "api_key") {
        return Some(key);
    }
    filled_copy(item, "token")
}

/// The tree of a value that may be missing.
pub open spec fn opt_tree(value: Option<&Json>) -> Option<JsonTree> {
    match value {
        Some(json) => Some(json@),
        None => None,
    }
}

/// The first key of a value that is a list.
pub fn first_gateway_key(value: Option<&Json>) -> (r: Option<String>)
    ensures
        text::opt_string(r) == key_in(opt_tree(value)),
{
    match value {
        Some(list) => match list.as_array() {
            Some(items) => {
                let mut i: usize = 0;
                proof {
                    assert(json::items_tree(items@).skip(0) =~= json::items_tree(items@));
                }
                while i < items.len()
                    invariant
                        i <= items.len(),
                        first_key(json::items_tree(items@)) == first_key(
                            json::items_tree(items@).skip(i as int),
                        ),
                        key_in(opt_tree(value)) == first_key(json::items_tree(items@)),
                    decreases items.len() - i,
                {
                    proof {
                        let rest = json::items_tree(items@).skip(i as int);
                        assert(rest[0] == items@[i as int]@);
                        assert(rest.drop_first() =~= json::items_tree(items@).skip(i + 1));
                    }
                    if let Some(key) = gateway_item_key(&items[i]) {
                        return Some(key);
                    }
                    i = i + 1;
                }
                None
            },
            None => None,
        },
        None => None,
    }
}

/// The key to present to the gateway of a configuration.
pub fn codex_provider_api_key_from_config(config: &Json) -> (r: String)
    ensures
        r@ == provider_api_key(config@),
{
    if let Some(auth) = config.get("auth") {
        if bool_field(auth, "enabled") {
            if let Some(key) = first_gateway_key(auth.get("principals")) {
                return key;
            }
            if let Some(key) = first_gateway_key(auth.get("keys")) {
                return key;
            }
            if let Some(key) = first_gateway_key(config.get("principals")) {
                return key;
            }
            if let Some(key) = first_gateway_key(config.get("keys")) {
                return key;
            }
        }
    }
    NEXT_AI_GATEWAY_API_KEY.to_owned()
}

/// A list of models in which none is blank or has white space around it, and
/// none occurs twice.
pub open spec fn clean_list(models: Seq<Seq<char>>) -> bool {
    &&& models.no_duplicates()
    &&& forall|i: int|
        0 <= i < models.len() ==> (#[trigger] models[i]).len() > 0 && text::trimmed(models[i])
            == models[i]
}

/// Adding a model keeps a list clean, keeps what it holds where it is, and makes
/// it hold the model unless that is blank.
pub proof fn law_adding_a_model(models: Seq<Seq<char>>, model: Seq<char>)
    requires
        clean_list(models),
    ensures
        clean_list(with_model(models, model)),
        models.is_prefix_of(with_model(models, model)),
        text::trimmed(model).len() > 0 ==> with_model(models, model).contains(
            text::trimmed(model),
        ),
        with_model(with_model(models, model), model) == with_model(models, model),
{
    text::lemma_trimmed(model);
    let name = text::trimmed(model);
    let added = with_model(models, model);
    if name.len() > 0 && !models.contains(name) {
        assert(added[models.len() as int] == name);
        assert(added.contains(name));
        assert forall|i: int, j: int|
            0 <= i < added.len() && 0 <= j < added.len() && i != j implies added[i] != added[j] by {
            if i < models.len() && j < models.len() {
                assert(models[i] != models[j]);
            } else if i < models.len() {
                assert(models.contains(models[i]));
            } else {
                assert(models.contains(models[j]));
            }
        }
    }
    assert(models =~= added.subrange(0, models.len() as int));
}

proof fn lemma_options_clean(models: Seq<Seq<char>>, provider: Seq<char>, names: Seq<Seq<char>>)
    requires
        clean_list(models),
    ensures
        clean_list(with_options(models, provider, names)),
    decreases names.len(),
{
    if names.len() > 0 {
        lemma_options_clean(models, provider, names.drop_last());
        law_adding_a_model(
            with_options(models, provider, names.drop_last()),
            model_option(provider, names.last()),
        );
    }
}

proof fn lemma_provider_options_clean(providers: Seq<JsonTree>)
    ensures
        clean_list(provider_options(providers)),
    decreases providers.len(),
{
    if providers.len() > 0 {
        lemma_provider_options_clean(providers.drop_last());
        lemma_options_clean(
            provider_options(providers.drop_last()),
            provider_name(providers.last()),
            provider_models(providers.last()),
        );
    }
}

/// The model options of a configuration are never blank, have no white space
/// around them, and none of them is offered twice.
pub proof fn law_model_options_are_clean(config: JsonTree)
    ensures
        clean_list(model_options(config)),
{
    lemma_provider_options_clean(listed(config, "Providers"@) + listed(config, "providers"@));
}

/// The option for a model, where there is one, starts with its provider's name
/// and a slash.
pub proof fn law_option_names_its_provider(provider: Seq<char>, model: Seq<char>)
    requires
        model_option(provider, model).len() > 0,
    ensures
        (text::trimmed(provider) + "/"@).is_prefix_of(model_option(provider, model)),
{
    let owner = text::trimmed(provider);
    let option = model_option(provider, model);
    if !(owner + "/"@).is_prefix_of(text::trim_start_of(text::trimmed(model), '/')) {
        assert(option.subrange(0, (owner + "/"@).len() as int) =~= owner + "/"@);
    }
}

proof fn lemma_filled(text: Option<Seq<char>>)
    ensures
        text::filled(text) matches Some(s) ==> s.len() > 0 && text::trimmed(s) == s,
{
    if let Some(s) = text {
        text::lemma_trimmed(s);
    }
}

proof fn lemma_first_key(items: Seq<JsonTree>)
    ensures
        first_key(items) matches Some(s) ==> s.len() > 0 && text::trimmed(s) == s,
    decreases items.len(),
{
    if items.len() > 0 {
        let item = items[0];
        lemma_filled(json::text_value(item));
        lemma_filled(json::text_field(item, "key"@));
        lemma_filled(json::text_field(item, "apiKey"@));
        lemma_filled(json::text_field(item, "api_key"@));
        lemma_filled(json::text_field(item, "token"@));
        lemma_first_key(items.drop_first());
    }
}

/// There is always a key to present: it is not blank, and has no white space
/// around it. Where authentication is off, it is the one that stands in.
pub proof fn law_api_key_is_filled(config: JsonTree)
    ensures
        provider_api_key(config).len() > 0,
        text::trimmed(provider_api_key(config)) == provider_api_key(config),
        !(json::field(config, "auth"@) matches Some(auth) && json::bool_field_value(
            auth,
            "enabled"@,
        )) ==> provider_api_key(config) == NEXT_AI_GATEWAY_API_KEY@,
{
    let auth = json::field(config, "auth"@);
    let lists = seq![
        inner(auth, "principals"@),
        inner(auth, "keys"@),
        json::field(config, "principals"@),
        json::field(config, "keys"@),
    ];
    assert forall|i: int| 0 <= i < lists.len() implies (key_in(#[trigger] lists[i]) matches Some(s)
        ==> s.len() > 0 && text::trimmed(s) == s) by {
        if let Some(JsonTree::Array(items)) = lists[i] {
            lemma_first_key(items);
        }
    }
    assert(lists[0] == inner(auth, "principals"@));
    assert(lists[1] == inner(auth, "keys"@));
    assert(lists[2] == json::field(config, "principals"@));
    assert(lists[3] == json::field(config, "keys"@));
    reveal_strlit("codexl-next-ai-gateway");
    let own = NEXT_AI_GATEWAY_API_KEY@;
    assert(own[0] == 'c' && own.last() == 'y');
    assert(text::trim_start(own) == own);
    assert(text::trim_end(own) == own);
}

/// The port of a configuration is one that a server can have.
pub proof fn law_port_can_be_used(config: JsonTree)
    ensures
        1 <= gateway_port(config) <= 65535,
{
}

/// A text is the name of a model unless it is blank. An object's name is the first
/// of its fields `name`, `id` and `model` that is filled. Nothing else has a name.
pub proof fn law_model_name(item: JsonTree)
    ensures
        item matches JsonTree::String(s) ==> model_name(item) == text::filled(Some(s)),
        item is Object ==> {
            let name = text::filled(json::text_field(item, "name"@));
            let id = text::filled(json::text_field(item, "id"@));
            let model = text::filled(json::text_field(item, "model"@));
            &&& name is Some ==> model_name(item) == name
            &&& name is None && id is Some ==> model_name(item) == id
            &&& name is None && id is None ==> model_name(item) == model
        },
        !(item is String) && !(item is Object) ==> model_name(item) is None,
{
}

proof fn lemma_model_names(items: Seq<JsonTree>)
    ensures
        selection::selects(
            items.map_values(|item: JsonTree| model_name(item)),
            model_names(items),
        ),
    decreases items.len(),
{
    let all = items.map_values(|item: JsonTree| model_name(item));
    if items.len() == 0 {
        selection::lemma_selects_empty::<Seq<char>>();
        assert(all =~= Seq::empty());
    } else {
        let before = items.drop_last();
        lemma_model_names(before);
        let all_before = before.map_values(|item: JsonTree| model_name(item));
        selection::lemma_selects_push(all_before, model_names(before), model_name(items.last()));
        assert(all =~= all_before.push(model_name(items.last())));
    }
}

proof fn lemma_filled_texts(pieces: Seq<Seq<char>>)
    ensures
        selection::selects(
            pieces.map_values(|piece: Seq<char>| text::filled(Some(piece))),
            filled_texts(pieces),
        ),
    decreases pieces.len(),
{
    let all = pieces.map_values(|piece: Seq<char>| text::filled(Some(piece)));
    if pieces.len() == 0 {
        selection::lemma_selects_empty::<Seq<char>>();
        assert(all =~= Seq::empty());
    } else {
        let before = pieces.drop_last();
        lemma_filled_texts(before);
        let all_before = before.map_values(|piece: Seq<char>| text::filled(Some(piece)));
        selection::lemma_selects_push(
            all_before,
            filled_texts(before),
            text::filled(Some(pieces.last())),
        );
        assert(all =~= all_before.push(text::filled(Some(pieces.last()))));
    }
}

/// A list with commas holds the pieces between the commas that are filled, in their
/// order.
pub proof fn law_comma_items(s: Seq<char>)
    ensures
        selection::selects(
            text::split_on(s, ',').map_values(|piece: Seq<char>| text::filled(Some(piece))),
            comma_items(s),
        ),
{
    lemma_filled_texts(text::split_on(s, ','));
}

/// A provider offers the names of the elements that have one, where its models are
/// an array; the filled pieces, where they are a text with commas; and nothing
/// otherwise.
pub proof fn law_provider_models(provider: JsonTree)
    ensures
        json::array_field(provider, "models"@) matches Some(items) ==> selection::selects(
            items.map_values(|item: JsonTree| model_name(item)),
            provider_models(provider),
        ),
        json::text_field(provider, "models"@) matches Some(list) ==> selection::selects(
            text::split_on(list, ',').map_values(|piece: Seq<char>| text::filled(Some(piece))),
            provider_models(provider),
        ),
        json::array_field(provider, "models"@) is None && json::text_field(provider, "models"@)
            is None ==> provider_models(provider).len() == 0,
{
    if let Some(items) = json::array_field(provider, "models"@) {
        lemma_model_names(items);
    }
    if let Some(list) = json::text_field(provider, "models"@) {
        law_comma_items(list);
    }
}

/// The option for a model is its name, without white space around it and slashes in
/// front, behind the provider's name and a slash. Where the name has these in front
/// already they are not put there twice. There is no option where one of the two is
/// missing.
pub proof fn law_model_option(provider: Seq<char>, model: Seq<char>)
    ensures
        ({
            let owner = text::trimmed(provider);
            let name = text::trim_start_of(text::trimmed(model), '/');
            let option = model_option(provider, model);
            &&& owner.len() == 0 || name.len() == 0 <==> option.len() == 0
            &&& option.len() > 0 && (owner + "/"@).is_prefix_of(name) ==> option == name
            &&& option.len() > 0 && !(owner + "/"@).is_prefix_of(name) ==> option == owner + "/"@
                + name
        }),
{
}

/// The options for a model are the same whether or not it names its provider.
pub proof fn law_option_is_stable(provider: Seq<char>, model: Seq<char>)
    requires
        model_option(provider, model).len() > 0,
        text::trimmed(provider)[0] != '/',
    ensures
        model_option(provider, model_option(provider, model)) == model_option(provider, model),
{
    let owner = text::trimmed(provider);
    let option = model_option(provider, model);
    law_option_names_its_provider(provider, model);
    lemma_option_trimmed(provider, model);
    let start = owner + "/"@;
    assert(option.subrange(0, start.len() as int)[0] == option[0]);
    assert(option[0] == owner[0]);
    text::law_trim_start_of(option, '/');
    assert(option.skip(0) =~= option);
}

proof fn lemma_trimmed_is(s: Seq<char>)
    requires
        s.len() > 0,
        !text::is_white_space(s[0]),
        !text::is_white_space(s.last()),
    ensures
        text::trimmed(s) == s,
{
}

proof fn lemma_option_trimmed(provider: Seq<char>, model: Seq<char>)
    ensures
        text::trimmed(model_option(provider, model)) == model_option(provider, model),
{
    let owner = text::trimmed(provider);
    let name = text::trim_start_of(text::trimmed(model), '/');
    let option = model_option(provider, model);
    text::lemma_trimmed(provider);
    text::lemma_trimmed(model);
    text::law_trim_start_of(text::trimmed(model), '/');
    if option.len() > 0 {
        law_option_names_its_provider(provider, model);
        let start = owner + "/"@;
        assert(option.subrange(0, start.len() as int)[0] == option[0]);
        assert(start[0] == owner[0]);
        assert(name.last() == text::trimmed(model).last());
        assert(option.last() == name.last());
        lemma_trimmed_is(option);
    }
}

/// The model at `m` of the provider at `p` is offered as `option`.
pub open spec fn offers(
    providers: Seq<JsonTree>,
    p: int,
    m: int,
    option: Seq<char>,
) -> bool {
    &&& 0 <= p < providers.len()
    &&& provider_name(providers[p]).len() > 0
    &&& 0 <= m < provider_models(providers[p]).len()
    &&& model_option(provider_name(providers[p]), provider_models(providers[p])[m]) == option
    &&& option.len() > 0
}

/// One place comes before another one: in an earlier provider, or earlier in the
/// same one.
pub open spec fn place_before(p: int, m: int, q: int, n: int) -> bool {
    p < q || p == q && m < n
}

/// `option` is offered at a place before every place at which `later` is offered.
pub open spec fn offered_before(
    providers: Seq<JsonTree>,
    option: Seq<char>,
    later: Seq<char>,
) -> bool {
    exists|p: int, m: int| #[trigger]
        offers(providers, p, m, option) && forall|q: int, n: int| #[trigger]
            offers(providers, q, n, later) ==> place_before(p, m, q, n)
}

/// `option` is offered at a place before the one at `p` and `m`.
spec fn offered_up_to(providers: Seq<JsonTree>, option: Seq<char>, p: int, m: int) -> bool {
    exists|q: int, n: int| #[trigger]
        offers(providers, q, n, option) && place_before(q, n, p, m)
}

/// `option` is offered at some place.
pub open spec fn is_offered(providers: Seq<JsonTree>, option: Seq<char>) -> bool {
    exists|p: int, m: int| #[trigger] offers(providers, p, m, option)
}

/// A list holds what is offered by the providers before `p`, and by the one at `p`
/// before `m`, in the order in which it is first offered.
spec fn holds_offers(models: Seq<Seq<char>>, providers: Seq<JsonTree>, p: int, m: int) -> bool {
    &&& forall|k: int|
        0 <= k < models.len() ==> offered_up_to(providers, #[trigger] models[k], p, m)
    &&& forall|q: int, n: int, option: Seq<char>| #[trigger]
        offers(providers, q, n, option) && place_before(q, n, p, m) ==> models.contains(option)
    &&& forall|k: int, l: int|
        0 <= k < l < models.len() ==> offered_before(
            providers,
            #[trigger] models[k],
            #[trigger] models[l],
        )
}

proof fn lemma_offers_step(models: Seq<Seq<char>>, providers: Seq<JsonTree>, p: int, m: int)
    requires
        holds_offers(models, providers, p, m),
        0 <= p < providers.len(),
        provider_name(providers[p]).len() > 0,
        0 <= m < provider_models(providers[p]).len(),
    ensures
        holds_offers(
            with_model(
                models,
                model_option(provider_name(providers[p]), provider_models(providers[p])[m]),
            ),
            providers,
            p,
            m + 1,
        ),
{
    let option = model_option(provider_name(providers[p]), provider_models(providers[p])[m]);
    let more = with_model(models, option);
    lemma_option_trimmed(provider_name(providers[p]), provider_models(providers[p])[m]);
    if option.len() > 0 {
        assert(offers(providers, p, m, option));
    }
    assert forall|k: int| 0 <= k < more.len() implies offered_up_to(
        providers,
        #[trigger] more[k],
        p,
        m + 1,
    ) by {
        if k < models.len() {
            assert(more[k] == models[k]);
            assert(offered_up_to(providers, models[k], p, m));
            let (q, n) = choose|q: int, n: int| #[trigger]
                offers(providers, q, n, models[k]) && place_before(q, n, p, m);
            assert(offers(providers, q, n, more[k]));
        } else {
            assert(offers(providers, p, m, more[k]));
        }
    }
    assert forall|q: int, n: int, x: Seq<char>| #[trigger]
        offers(providers, q, n, x) && place_before(q, n, p, m + 1) implies more.contains(x) by {
        if place_before(q, n, p, m) {
            assert(models.contains(x));
            let k = choose|k: int| 0 <= k < models.len() && models[k] == x;
            assert(more[k] == x);
        } else {
            assert(x == option);
            if !models.contains(option) {
                assert(more[models.len() as int] == option);
            }
        }
    }
    assert forall|k: int, l: int| 0 <= k < l < more.len() implies offered_before(
        providers,
        #[trigger] more[k],
        #[trigger] more[l],
    ) by {
        assert(more[k] == models[k]);
        if l < models.len() {
            assert(more[l] == models[l]);
        } else {
            assert(!models.contains(option));
            assert(offered_up_to(providers, models[k], p, m));
            let (q, n) = choose|q: int, n: int| #[trigger]
                offers(providers, q, n, models[k]) && place_before(q, n, p, m);
            assert forall|q2: int, n2: int| #[trigger]
                offers(providers, q2, n2, option) implies place_before(q, n, q2, n2) by {
                if place_before(q2, n2, p, m) {
                    assert(models.contains(option));
                }
            }
            assert(offers(providers, q, n, more[k]));
        }
    }
}

proof fn lemma_offers_of_provider(
    models: Seq<Seq<char>>,
    providers: Seq<JsonTree>,
    p: int,
    m: int,
)
    requires
        holds_offers(models, providers, p, 0),
        0 <= p < providers.len(),
        provider_name(providers[p]).len() > 0,
        0 <= m <= provider_models(providers[p]).len(),
    ensures
        holds_offers(
            with_options(
                models,
                provider_name(providers[p]),
                provider_models(providers[p]).take(m),
            ),
            providers,
            p,
            m,
        ),
    decreases m,
{
    let names = provider_models(providers[p]);
    if m > 0 {
        lemma_offers_of_provider(models, providers, p, m - 1);
        assert(names.take(m).drop_last() =~= names.take(m - 1));
        assert(names.take(m).last() == names[m - 1]);
        lemma_offers_step(
            with_options(models, provider_name(providers[p]), names.take(m - 1)),
            providers,
            p,
            m - 1,
        );
    } else {
        assert(names.take(0) =~= Seq::empty());
    }
}

proof fn lemma_offers_next(models: Seq<Seq<char>>, providers: Seq<JsonTree>, p: int, m: int)
    requires
        holds_offers(models, providers, p, m),
        0 <= p < providers.len(),
        m >= 0,
        provider_name(providers[p]).len() == 0 || m >= provider_models(providers[p]).len(),
    ensures
        holds_offers(models, providers, p + 1, 0),
{
    assert forall|k: int| 0 <= k < models.len() implies offered_up_to(
        providers,
        #[trigger] models[k],
        p + 1,
        0,
    ) by {
        assert(offered_up_to(providers, models[k], p, m));
        let (q, n) = choose|q: int, n: int| #[trigger]
            offers(providers, q, n, models[k]) && place_before(q, n, p, m);
        assert(offers(providers, q, n, models[k]));
    }
    assert forall|q: int, n: int, x: Seq<char>| #[trigger]
        offers(providers, q, n, x) && place_before(q, n, p + 1, 0) implies models.contains(x) by {
        assert(place_before(q, n, p, m));
    }
}

proof fn lemma_offers(providers: Seq<JsonTree>, p: int)
    requires
        0 <= p <= providers.len(),
    ensures
        holds_offers(provider_options(providers.take(p)), providers, p, 0),
    decreases p,
{
    if p == 0 {
        assert(providers.take(0) =~= Seq::empty());
    } else {
        lemma_offers(providers, p - 1);
        let before = provider_options(providers.take(p - 1));
        let last = providers[p - 1];
        assert(providers.take(p).drop_last() =~= providers.take(p - 1));
        assert(providers.take(p).last() == last);
        if provider_name(last).len() == 0 {
            lemma_offers_next(before, providers, p - 1, 0);
        } else {
            let names = provider_models(last);
            lemma_offers_of_provider(before, providers, p - 1, names.len() as int);
            assert(names.take(names.len() as int) =~= names);
            lemma_offers_next(
                with_options(before, provider_name(last), names),
                providers,
                p - 1,
                names.len() as int,
            );
        }
    }
}

/// The options of a configuration are those that its providers offer, first those
/// under `Providers` and then those under `providers`, and no others; they stand in
/// the order in which they are first offered.
pub proof fn law_model_options(config: JsonTree)
    ensures
        ({
            let upper = match json::array_field(config, "Providers"@) {
                Some(items) => items,
                None => Seq::empty(),
            };
            let lower = match json::array_field(config, "providers"@) {
                Some(items) => items,
                None => Seq::empty(),
            };
            let providers = upper + lower;
            let options = model_options(config);
            &&& forall|k: int|
                0 <= k < options.len() ==> is_offered(providers, #[trigger] options[k])
            &&& forall|p: int, m: int, option: Seq<char>| #[trigger]
                offers(providers, p, m, option) ==> options.contains(option)
            &&& forall|k: int, l: int|
                0 <= k < l < options.len() ==> offered_before(
                    providers,
                    #[trigger] options[k],
                    #[trigger] options[l],
                )
        }),
{
    let providers = listed(config, "Providers"@) + listed(config, "providers"@);
    let options = model_options(config);
    lemma_offers(providers, providers.len() as int);
    assert(providers.take(providers.len() as int) =~= providers);
    assert forall|k: int| 0 <= k < options.len() implies is_offered(
        providers,
        #[trigger] options[k],
    ) by {
        assert(offered_up_to(providers, options[k], providers.len() as int, 0));
        let (q, n) = choose|q: int, n: int| #[trigger]
            offers(providers, q, n, options[k]) && place_before(q, n, providers.len() as int, 0);
        assert(offers(providers, q, n, options[k]));
    }
    assert forall|p: int, m: int, option: Seq<char>| #[trigger]
        offers(providers, p, m, option) implies options.contains(option) by {
        assert(place_before(p, m, providers.len() as int, 0));
    }
}

/// A provider is called by its field `name`, without the white space around it.
pub proof fn law_provider_name(provider: JsonTree)
    ensures
        json::text_field(provider, "name"@) matches Some(name) ==> provider_name(provider)
            == text::trimmed(name),
        json::text_field(provider, "name"@) is None ==> provider_name(provider).len() == 0,
{
}

/// The port is the number under `port` where that is one that a server can have, and
/// the standard one otherwise.
pub proof fn law_port(config: JsonTree, port: u64)
    ensures
        json::field(config, "port"@) == Some(json::unsigned(port)) && 1 <= port <= 65535
            ==> gateway_port(config) == port,
        json::field(config, "port"@) == Some(json::unsigned(port)) && !(1 <= port <= 65535)
            ==> gateway_port(config) == 14589,
        !(json::field(config, "port"@) matches Some(JsonTree::Number(JsonNumber::Unsigned(_))))
            ==> gateway_port(config) == 14589,
{
}

/// The gateway is reached at the host of its configuration, in brackets where that
/// is an address with colons, and at its port. A host that is missing or blank, or
/// that stands for every address, is the loopback address.
pub proof fn law_gateway_origin(config: JsonTree)
    ensures
        ({
            let port = text::decimal_text(gateway_port(config) as nat);
            let host = text::filled(json::text_field(config, "host"@));
            &&& host is None || host == Some("0.0.0.0"@) || host == Some("::"@) || host == Some(
                "[::]"@,
            ) ==> gateway_origin(config) == "http://127.0.0.1:"@ + port
            &&& host matches Some(h) ==> h != "0.0.0.0"@ && h != "::"@ && h != "[::]"@ ==> {
                &&& h.contains(':') && h[0] != '[' ==> gateway_origin(config) == "http://["@ + h
                    + "]:"@ + port
                &&& !h.contains(':') || h[0] == '[' ==> gateway_origin(config) == "http://"@ + h
                    + ":"@ + port
            }
        }),
{
    let port = gateway_port(config) as nat;
    lemma_filled(json::text_field(config, "host"@));
    let h = match text::filled(json::text_field(config, "host"@)) {
        Some(host) => host,
        None => "127.0.0.1"@,
    };
    reveal_strlit("127.0.0.1");
    reveal_strlit("0.0.0.0");
    reveal_strlit("::");
    reveal_strlit("[::]");
    assert("127.0.0.1"@.len() == 9 && "0.0.0.0"@.len() == 7 && "::"@.len() == 2 && "[::]"@.len()
        == 4);
    origin::law_http_origin(h, port);
    origin::law_http_origin("127.0.0.1"@, port);
    reveal_strlit("http://127.0.0.1:");
    reveal_strlit("http://");
    reveal_strlit(":");
    assert("http://127.0.0.1:"@ =~= "http://"@ + "127.0.0.1"@ + ":"@);
}

/// The key of a text is the text, unless it is blank; the key of an object is the
/// first of its fields `key`, `apiKey`, `api_key` and `token` that is filled; nothing
/// else has one.
pub proof fn law_item_key(item: JsonTree)
    ensures
        item matches JsonTree::String(s) ==> item_key(item) == text::filled(Some(s)),
        item is Object ==> {
            let key = text::filled(json::text_field(item, "key"@));
            let camel = text::filled(json::text_field(item, "apiKey"@));
            let snake = text::filled(json::text_field(item, "api_key"@));
            let token = text::filled(json::text_field(item, "token"@));
            &&& key is Some ==> item_key(item) == key
            &&& key is None && camel is Some ==> item_key(item) == camel
            &&& key is None && camel is None && snake is Some ==> item_key(item) == snake
            &&& key is None && camel is None && snake is None ==> item_key(item) == token
        },
        !(item is String) && !(item is Object) ==> item_key(item) is None,
{
}

/// The key of a list is that of its first item that has one: no item before it has
/// a key. A list whose items have no key has none, and neither has what is no list.
pub proof fn law_first_key(items: Seq<JsonTree>, i: int)
    ensures
        0 <= i < items.len() && item_key(items[i]) is Some && (forall|j: int|
            0 <= j < i ==> item_key(#[trigger] items[j]) is None) ==> first_key(items) == item_key(
            items[i],
        ),
        (forall|j: int| 0 <= j < items.len() ==> item_key(#[trigger] items[j]) is None)
            ==> first_key(items) is None,
        key_in(Some(JsonTree::Array(items))) == first_key(items),
        key_in(None) is None,
        forall|value: JsonTree| !(value is Array) ==> (#[trigger] key_in(Some(value))) is None,
    decreases items.len(),
{
    if items.len() > 0 {
        let rest = items.drop_first();
        law_first_key(rest, i - 1);
        if forall|j: int| 0 <= j < items.len() ==> item_key(#[trigger] items[j]) is None {
            assert forall|j: int| 0 <= j < rest.len() implies item_key(#[trigger] rest[j]) is None by {
                assert(rest[j] == items[j + 1]);
            }
            assert(item_key(items[0]) is None);
        }
        if 0 < i < items.len() && item_key(items[i]) is Some && (forall|j: int|
            0 <= j < i ==> item_key(#[trigger] items[j]) is None) {
            assert(item_key(items[0]) is None);
            assert(rest[i - 1] == items[i]);
            assert forall|j: int| 0 <= j < i - 1 implies item_key(#[trigger] rest[j]) is None by {
                assert(rest[j] == items[j + 1]);
            }
        }
    }
}

/// The first item with a key in a list: it has one, and none before it has.
pub open spec fn is_first_with_key(items: Seq<JsonTree>, i: int) -> bool {
    &&& 0 <= i < items.len()
    &&& item_key(items[i]) is Some
    &&& forall|j: int| 0 <= j < i ==> item_key(#[trigger] items[j]) is None
}

/// No item of what is under a name has a key.
pub open spec fn has_no_key(value: Option<JsonTree>) -> bool {
    value matches Some(JsonTree::Array(items)) ==> forall|j: int|
        0 <= j < items.len() ==> item_key(#[trigger] items[j]) is None
}

proof fn lemma_has_no_key(value: Option<JsonTree>)
    requires
        has_no_key(value),
    ensures
        key_in(value) is None,
{
    if let Some(JsonTree::Array(items)) = value {
        law_first_key(items, 0);
    }
}

/// With authentication on, the key to present is that of the first item that has
/// one in the first list that has such an item, of the principals and the keys under
/// `auth` and the principals and the keys of the configuration itself, in this
/// order. Where no list has one, and where authentication is off, it is the key that
/// stands in.
pub proof fn law_api_key(config: JsonTree, auth: JsonTree, items: Seq<JsonTree>, i: int)
    requires
        json::field(config, "auth"@) == Some(auth),
    ensures
        ({
            let list = Some(JsonTree::Array(items));
            let own_principals = json::field(auth, "principals"@);
            let own_keys = json::field(auth, "keys"@);
            let principals = json::field(config, "principals"@);
            let keys = json::field(config, "keys"@);
            let on = json::field(auth, "enabled"@) == Some(JsonTree::Bool(true));
            &&& on && is_first_with_key(items, i) ==> {
                &&& own_principals == list ==> Some(provider_api_key(config)) == item_key(items[i])
                &&& has_no_key(own_principals) && own_keys == list ==> Some(
                    provider_api_key(config),
                ) == item_key(items[i])
                &&& has_no_key(own_principals) && has_no_key(own_keys) && principals == list ==> Some(
                    provider_api_key(config),
                ) == item_key(items[i])
                &&& has_no_key(own_principals) && has_no_key(own_keys) && has_no_key(principals)
                    && keys == list ==> Some(provider_api_key(config)) == item_key(items[i])
            }
            &&& !on || has_no_key(own_principals) && has_no_key(own_keys) && has_no_key(principals)
                && has_no_key(keys) ==> provider_api_key(config) == "codexl-next-ai-gateway"@
        }),
{
    law_first_key(items, i);
    let lists = seq![
        json::field(auth, "principals"@),
        json::field(auth, "keys"@),
        json::field(config, "principals"@),
        json::field(config, "keys"@),
    ];
    assert forall|k: int| 0 <= k < lists.len() && has_no_key(#[trigger] lists[k]) implies key_in(
        lists[k],
    ) is None by {
        lemma_has_no_key(lists[k]);
    }
    assert(lists[0] == json::field(auth, "principals"@));
    assert(lists[1] == json::field(auth, "keys"@));
    assert(lists[2] == json::field(config, "principals"@));
    assert(lists[3] == json::field(config, "keys"@));
}

/// A text is read as a configuration exactly where it is JSON for an object, and as
/// that object; another value is refused with a message of its own, and a text that
/// is no JSON with the parser's.
pub proof fn law_config_read(content: Seq<char>, tree: JsonTree, message: Seq<char>)
    ensures
        config_read(content) == Ok::<JsonTree, Seq<char>>(tree) <==> json_text::denotes(
            content,
            tree,
        ) && tree is Object,
        json_text::denotes(content, tree) && !(tree is Object) ==> config_read(content) == Err::<
            JsonTree,
            Seq<char>,
        >("Gateway config must be a JSON object"@),
        json_text::json_parsed(content) == Err::<JsonTree, Seq<char>>(message) ==> config_read(
            content,
        ) == Err::<JsonTree, Seq<char>>(message),
{
}

/// Accepts a value as a configuration: it must be an object.
pub fn gateway_config_object(config: Json) -> (r: Result<Json, String>)
    ensures
        match r {
            Ok(object) => config@ is Object && object@ == config@,
            Err(message) => !(config@ is Object) && message@
                == "Gateway config must be a JSON object"@,
        },
{
    if config.is_object() {
        Ok(config)
    } else {
        Err("Gateway config must be a JSON object".to_owned())
    }
}

/// The configuration that a file holds. `content` is the text of the file.
pub fn read_gateway_config(path: &str, content: &str) -> (r: Result<GatewayConfigFile, String>)
    ensures
        match r {
            Ok(file) => file.path@ == path@ && config_read(content@) == Ok::<JsonTree, Seq<char>>(
                file.config@,
            ),
            Err(message) => config_read(content@) == Err::<JsonTree, Seq<char>>(message@),
        },
{
    match parse_json(content) {
        Ok(config) => match gateway_config_object(config) {
            Ok(config) => Ok(GatewayConfigFile { path: path.to_owned(), config }),
            Err(message) => Err(message),
        },
        Err(message) => Err(message),
    }
}

/// The base URL of the provider that the configuration text `content` describes.
pub fn codex_provider_base_url(content: &str) -> (r: Result<String, String>)
    ensures
        match config_read(content@) {
            Ok(config) => r is Ok && r->Ok_0@ == gateway_origin(config) + "/v1"@,
            Err(message) => r is Err && r->Err_0@ == message,
        },
{
    match read_gateway_config("", content) {
        Ok(file) => {
            let mut url = gateway_origin_from_config(&file.config);
            url.append("/v1");
            Ok(url)
        },
        Err(message) => Err(message),
    }
}

/// The URL under which the gateway answers whether it is well.
pub fn gateway_health_url(content: &str) -> (r: Result<String, String>)
    ensures
        match config_read(content@) {
            Ok(config) => r is Ok && r->Ok_0@ == gateway_origin(config) + "/health"@,
            Err(message) => r is Err && r->Err_0@ == message,
        },
{
    match read_gateway_config("", content) {
        Ok(file) => {
            let mut url = gateway_origin_from_config(&file.config);
            url.append("/health");
            Ok(url)
        },
        Err(message) => Err(message),
    }
}

/// The key to present to the gateway that the configuration text describes.
pub fn codex_provider_api_key(content: &str) -> (r: Result<String, String>)
    ensures
        match config_read(content@) {
            Ok(config) => r is Ok && r->Ok_0@ == provider_api_key(config),
            Err(message) => r is Err && r->Err_0@ == message,
        },
{
    match read_gateway_config("", content) {
        Ok(file) => Ok(codex_provider_api_key_from_config(&file.config)),
        Err(message) => Err(message),
    }
}

/// A configuration file and the text to write to it.
pub struct GatewayConfigWrite {
    pub text: String,
    pub file: GatewayConfigFile,
}

/// Prepares a configuration for writing: it must be an object. What is written
/// is read back as the same configuration where its numbers are whole and it is
/// nested in at most 127 levels.
pub fn write_gateway_config(path: &str, config: Json) -> (r: Result<GatewayConfigWrite, String>)
    ensures
        match r {
            Ok(write) => {
                &&& config@ is Object
                &&& write.text@ == json_text::line(json_text::json_pretty(config@))
                &&& write.file.path@ == path@
                &&& write.file.config@ == config@
                &&& json_text::reads_back(config@, 127) ==> config_read(write.text@) == Ok::<
                    JsonTree,
                    Seq<char>,
                >(config@)
            },
            Err(message) => !(config@ is Object) && message@
                == "Gateway config must be a JSON object"@,
        },
{
    match gateway_config_object(config) {
        Ok(config) => match print_json(config) {
            Ok(printed) => Ok(
                GatewayConfigWrite {
                    text: printed.text,
                    file: GatewayConfigFile { path: path.to_owned(), config: printed.value },
                },
            ),
            Err(message) => Err(message),
        },
        Err(message) => Err(message),
    }
}

/// An object with the one entry that says that something is off.
pub open spec fn disabled_tree() -> JsonTree {
    json::object_tree(seq![("enabled"@, JsonTree::Bool(false))])
}

/// The default settings for traces.
pub open spec fn default_raw_trace() -> Seq<(Seq<char>, JsonTree)> {
    seq![("enabled"@, JsonTree::Bool(false)), ("mode"@, JsonTree::String("disabled"@))]
}

/// The default settings for where agents keep their files.
pub open spec fn default_storage() -> Seq<(Seq<char>, JsonTree)> {
    seq![("type"@, JsonTree::String("filesystem"@))]
}

/// The default settings for agents.
pub open spec fn default_agent() -> Seq<(Seq<char>, JsonTree)> {
    seq![
        ("storage"@, json::object_tree(default_storage())),
        ("mcpServers"@, JsonTree::Array(Seq::empty())),
    ]
}

/// The default settings.
pub open spec fn default_entries() -> Seq<(Seq<char>, JsonTree)> {
    seq![
        ("host"@, JsonTree::String("127.0.0.1"@)),
        ("port"@, json::unsigned(14589)),
        ("bodyLimitBytes"@, json::unsigned(52428800)),
        ("Providers"@, JsonTree::Array(Seq::empty())),
        ("auth"@, disabled_tree()),
        ("billing"@, disabled_tree()),
        ("billingQueue"@, disabled_tree()),
        ("billingWebhook"@, disabled_tree()),
        ("rawTrace"@, json::object_tree(default_raw_trace())),
        ("agent"@, json::object_tree(default_agent())),
        ("mcpGateway"@, disabled_tree()),
    ]
}

/// The configuration that is written where there is none yet.
pub open spec fn default_config() -> JsonTree {
    json::object_tree(default_entries())
}

/// An object with the one entry that says that something is off.
fn disabled() -> (r: Json)
    ensures
        r@ == disabled_tree(),
{
    let mut entries = new_entries();
    put(&mut entries, "enabled", Json::Bool(false));
    json_object(entries)
}

/// The configuration that is written where there is none yet.
pub fn default_gateway_config() -> (r: Json)
    ensures
        r@ == default_config(),
{
    let mut raw_trace = new_entries();
    put(&mut raw_trace, "enabled", Json::Bool(false));
    put(&mut raw_trace, "mode", json_text("disabled"));
    proof {
        assert(json::entries_tree(raw_trace@) =~= default_raw_trace());
    }

    let mut storage = new_entries();
    put(&mut storage, "type", json_text("filesystem"));

    let mut agent = new_entries();
    put(&mut agent, "storage", json_object(storage));
    put(&mut agent, "mcpServers", json_array(new_items()));
    proof {
        assert(json::entries_tree(agent@) =~= default_agent());
    }

    let mut entries = new_entries();
    put(&mut entries, "host", json_text("127.0.0.1"));
    put(&mut entries, "port", json_number(14589));
    put(&mut entries, "bodyLimitBytes", json_number(52428800));
    put(&mut entries, "Providers", json_array(new_items()));
    put(&mut entries, "auth", disabled());
    put(&mut entries, "billing", disabled());
    put(&mut entries, "billingQueue", disabled());
    put(&mut entries, "billingWebhook", disabled());
    put(&mut entries, "rawTrace", json_object(raw_trace));
    put(&mut entries, "agent", json_object(agent));
    put(&mut entries, "mcpGateway", disabled());
    proof {
        assert(json::entries_tree(entries@) =~= default_entries());
    }
    json_object(entries)
}

/// What to write to the configuration file before it is read: nothing where it
/// is there, else the default configuration, which can be read.
pub fn ensure_gateway_config_file(is_file: bool) -> (r: Result<Option<String>, String>)
    ensures
        r is Ok,
        is_file <==> r->Ok_0 is None,
        r->Ok_0 matches Some(text) ==> {
            &&& text@ == json_text::line(json_text::json_pretty(default_config()))
            &&& config_read(text@) == Ok::<JsonTree, Seq<char>>(default_config())
        },
{
    if is_file {
        return Ok(None);
    }
    proof {
        lemma_default_config_reads_back();
    }
    match print_json(default_gateway_config()) {
        Ok(printed) => Ok(Some(printed.text)),
        Err(message) => Err(message),
    }
}

proof fn lemma_default_config_reads_back()
    ensures
        json_text::reads_back(default_config(), 127),
{
    reveal_with_fuel(json_text::reads_back, 2);
    json_text::lemma_object_reads_back(seq![("enabled"@, JsonTree::Bool(false))], 126);
    json_text::lemma_object_reads_back(default_raw_trace(), 126);
    json_text::lemma_object_reads_back(default_storage(), 125);
    json_text::lemma_object_reads_back(default_agent(), 126);
    json_text::lemma_object_reads_back(default_entries(), 127);
}

/// `tree` says that something is off, and nothing else.
pub open spec fn says_off(tree: Option<JsonTree>) -> bool {
    tree matches Some(value) && json::field(value, "enabled"@) == Some(JsonTree::Bool(false))
        && value->Object_0.dom().len() == 1
}

proof fn lemma_disabled_tree()
    ensures
        says_off(Some(disabled_tree())),
{
    let none = Seq::<(Seq<char>, JsonTree)>::empty();
    json::lemma_no_entries();
    json::lemma_entry_put(none, "enabled"@, JsonTree::Bool(false));
    assert(none.push(("enabled"@, JsonTree::Bool(false))) =~= seq![
        ("enabled"@, JsonTree::Bool(false)),
    ]);
}

proof fn lemma_default_raw_trace()
    ensures
        ({
            let trace = json::object_tree(default_raw_trace());
            &&& json::field(trace, "enabled"@) == Some(JsonTree::Bool(false))
            &&& json::text_field(trace, "mode"@) == Some("disabled"@)
            &&& trace->Object_0.dom().len() == 2
        }),
{
    reveal_strlit("enabled");
    reveal_strlit("mode");
    assert("enabled"@.len() == 7 && "mode"@.len() == 4);
    let none = Seq::<(Seq<char>, JsonTree)>::empty();
    let one = none.push(("enabled"@, JsonTree::Bool(false)));
    json::lemma_no_entries();
    json::lemma_entry_put(none, "enabled"@, JsonTree::Bool(false));
    json::lemma_entry_put(one, "mode"@, JsonTree::String("disabled"@));
    assert(one.push(("mode"@, JsonTree::String("disabled"@))) =~= default_raw_trace());
}

proof fn lemma_default_agent()
    ensures
        ({
            let agent = json::object_tree(default_agent());
            &&& json::array_field(agent, "mcpServers"@) == Some(Seq::<JsonTree>::empty())
            &&& agent->Object_0.dom().len() == 2
            &&& json::field(agent, "storage"@) matches Some(storage)
            &&& json::text_field(storage, "type"@) == Some("filesystem"@)
            &&& storage->Object_0.dom().len() == 1
        }),
{
    reveal_strlit("storage");
    reveal_strlit("mcpServers");
    assert("storage"@.len() == 7 && "mcpServers"@.len() == 10);
    let none = Seq::<(Seq<char>, JsonTree)>::empty();
    json::lemma_no_entries();
    json::lemma_entry_put(none, "type"@, JsonTree::String("filesystem"@));
    assert(none.push(("type"@, JsonTree::String("filesystem"@))) =~= default_storage());
    let storage = json::object_tree(default_storage());
    let one = none.push(("storage"@, storage));
    json::lemma_entry_put(none, "storage"@, storage);
    json::lemma_entry_put(one, "mcpServers"@, JsonTree::Array(Seq::empty()));
    assert(one.push(("mcpServers"@, JsonTree::Array(Seq::empty()))) =~= default_agent());
}

proof fn lemma_default_fields()
    ensures
        json::field(default_config(), "host"@) == Some(JsonTree::String("127.0.0.1"@)),
        json::field(default_config(), "port"@) == Some(json::unsigned(14589)),
        json::field(default_config(), "bodyLimitBytes"@) == Some(json::unsigned(52428800)),
        json::field(default_config(), "Providers"@) == Some(JsonTree::Array(Seq::empty())),
        json::field(default_config(), "auth"@) == Some(disabled_tree()),
        json::field(default_config(), "billing"@) == Some(disabled_tree()),
        json::field(default_config(), "billingQueue"@) == Some(disabled_tree()),
        json::field(default_config(), "billingWebhook"@) == Some(disabled_tree()),
        json::field(default_config(), "rawTrace"@) == Some(json::object_tree(default_raw_trace())),
        json::field(default_config(), "agent"@) == Some(json::object_tree(default_agent())),
        json::field(default_config(), "mcpGateway"@) == Some(disabled_tree()),
        json::field(default_config(), "codexlUsageCapture"@) is None,
        json::field(default_config(), "providers"@) is None,
        default_config()->Object_0.dom().len() == 11,
{
    reveal_strlit("host");
    reveal_strlit("port");
    reveal_strlit("bodyLimitBytes");
    reveal_strlit("Providers");
    reveal_strlit("auth");
    reveal_strlit("billing");
    reveal_strlit("billingQueue");
    reveal_strlit("billingWebhook");
    reveal_strlit("rawTrace");
    reveal_strlit("agent");
    reveal_strlit("mcpGateway");
    reveal_strlit("codexlUsageCapture");
    reveal_strlit("providers");
    assert("host"@.len() == 4);
    assert("port"@.len() == 4);
    assert("bodyLimitBytes"@.len() == 14);
    assert("Providers"@.len() == 9);
    assert("auth"@.len() == 4);
    assert("billing"@.len() == 7);
    assert("billingQueue"@.len() == 12);
    assert("billingWebhook"@.len() == 14);
    assert("rawTrace"@.len() == 8);
    assert("agent"@.len() == 5);
    assert("mcpGateway"@.len() == 10);
    assert("codexlUsageCapture"@.len() == 18);
    assert("providers"@.len() == 9);
    assert("host"@[0] == 'h');
    assert("port"@[0] == 'p');
    assert("auth"@[0] == 'a');
    assert("bodyLimitBytes"@[1] == 'o');
    assert("billingWebhook"@[1] == 'i');
    assert("Providers"@[0] == 'P');
    assert("providers"@[0] == 'p');
    let e0 = Seq::<(Seq<char>, JsonTree)>::empty();
    json::lemma_no_entries();
    let e1 = e0.push(("host"@, JsonTree::String("127.0.0.1"@)));
    json::lemma_entry_put(e0, "host"@, JsonTree::String("127.0.0.1"@));
    let e2 = e1.push(("port"@, json::unsigned(14589)));
    json::lemma_entry_put(e1, "port"@, json::unsigned(14589));
    let e3 = e2.push(("bodyLimitBytes"@, json::unsigned(52428800)));
    json::lemma_entry_put(e2, "bodyLimitBytes"@, json::unsigned(52428800));
    let e4 = e3.push(("Providers"@, JsonTree::Array(Seq::empty())));
    json::lemma_entry_put(e3, "Providers"@, JsonTree::Array(Seq::empty()));
    let e5 = e4.push(("auth"@, disabled_tree()));
    json::lemma_entry_put(e4, "auth"@, disabled_tree());
    let e6 = e5.push(("billing"@, disabled_tree()));
    json::lemma_entry_put(e5, "billing"@, disabled_tree());
    let e7 = e6.push(("billingQueue"@, disabled_tree()));
    json::lemma_entry_put(e6, "billingQueue"@, disabled_tree());
    let e8 = e7.push(("billingWebhook"@, disabled_tree()));
    json::lemma_entry_put(e7, "billingWebhook"@, disabled_tree());
    let e9 = e8.push(("rawTrace"@, json::object_tree(default_raw_trace())));
    json::lemma_entry_put(e8, "rawTrace"@, json::object_tree(default_raw_trace()));
    let e10 = e9.push(("agent"@, json::object_tree(default_agent())));
    json::lemma_entry_put(e9, "agent"@, json::object_tree(default_agent()));
    let e11 = e10.push(("mcpGateway"@, disabled_tree()));
    json::lemma_entry_put(e10, "mcpGateway"@, disabled_tree());
    assert(e11 == default_entries());
}

/// The configuration that is written where there is none yet: a server on the loopback
/// address, with the standard port and a limit of fifty megabytes, without providers,
/// and with everything else off.
pub proof fn law_default_config()
    ensures
        ({
            let config = default_config();
            &&& json::text_field(config, "host"@) == Some("127.0.0.1"@)
            &&& json::field(config, "port"@) == Some(json::unsigned(14589))
            &&& json::field(config, "bodyLimitBytes"@) == Some(json::unsigned(0x320_0000))
            &&& json::array_field(config, "Providers"@) == Some(Seq::<JsonTree>::empty())
            &&& says_off(json::field(config, "auth"@))
            &&& says_off(json::field(config, "billing"@))
            &&& says_off(json::field(config, "billingQueue"@))
            &&& says_off(json::field(config, "billingWebhook"@))
            &&& says_off(json::field(config, "mcpGateway"@))
            &&& json::field(config, "rawTrace"@) matches Some(trace)
            &&& json::field(trace, "enabled"@) == Some(JsonTree::Bool(false))
            &&& json::text_field(trace, "mode"@) == Some("disabled"@)
            &&& trace->Object_0.dom().len() == 2
            &&& json::field(config, "agent"@) matches Some(agent)
            &&& json::array_field(agent, "mcpServers"@) == Some(Seq::<JsonTree>::empty())
            &&& json::field(agent, "storage"@) matches Some(storage)
            &&& json::text_field(storage, "type"@) == Some("filesystem"@)
            &&& config->Object_0.dom().len() == 11
        }),
{
    lemma_default_fields();
    lemma_disabled_tree();
    lemma_default_raw_trace();
    lemma_default_agent();
}

/// A gateway with the configuration that is written where there is none yet listens on
/// the loopback address, offers no models and asks for no key.
pub proof fn law_default_gateway()
    ensures
        gateway_origin(default_config()) == "http://127.0.0.1:14589"@,
        model_options(default_config()).len() == 0,
        provider_api_key(default_config()) == "codexl-next-ai-gateway"@,
{
    let config = default_config();
    lemma_default_fields();
    lemma_disabled_tree();
    law_port(config, 14589);
    reveal_strlit("127.0.0.1");
    reveal_strlit("0.0.0.0");
    reveal_strlit("::");
    reveal_strlit("[::]");
    assert("127.0.0.1"@.len() == 9 && "0.0.0.0"@.len() == 7 && "::"@.len() == 2 && "[::]"@.len()
        == 4);
    text::law_filled("127.0.0.1"@);
    text::lemma_trimmed("127.0.0.1"@);
    assert(text::trimmed("127.0.0.1"@) == "127.0.0.1"@) by {
        lemma_trimmed_is("127.0.0.1"@);
    }
    law_gateway_origin(config);
    reveal_with_fuel(text::decimal_text, 6);
    assert(text::decimal_text(14589) =~= seq!['1', '4', '5', '8', '9']);
    reveal_strlit("http://");
    reveal_strlit(":");
    reveal_strlit("http://127.0.0.1:14589");
    assert("http://"@ + "127.0.0.1"@ + ":"@ + text::decimal_text(14589)
        =~= "http://127.0.0.1:14589"@);
    assert(!"127.0.0.1"@.contains(':'));
    assert(listed(config, "Providers"@) + listed(config, "providers"@) =~= Seq::empty());
    let auth = json::field(config, "auth"@)->Some_0;
    law_api_key(config, auth, Seq::empty(), 0);
}

/// A model is put at the end of a list, without white space around it, unless it is
/// blank or in the list already.
pub proof fn law_pushed_model(models: Seq<Seq<char>>, model: Seq<char>)
    ensures
        ({
            let name = text::trimmed(model);
            &&& name.len() == 0 || models.contains(name) ==> with_model(models, model) == models
            &&& name.len() > 0 && !models.contains(name) ==> with_model(models, model) == models
                + seq![name]
        }),
{
    assert(models.push(text::trimmed(model)) =~= models + seq![text::trimmed(model)]);
}

/// Without settings for authentication, the key is the one that stands in.
pub proof fn law_no_authentication(config: JsonTree)
    ensures
        json::field(config, "auth"@) is None ==> provider_api_key(config)
            == "codexl-next-ai-gateway"@,
        NEXT_AI_GATEWAY_API_KEY@ == "codexl-next-ai-gateway"@,
        NEXT_AI_GATEWAY_PROVIDER_NAME@ == "next-ai-gateway"@,
{
}

/// A provider with a name offers every model that it has, under the option for it,
/// unless there is none.
pub proof fn law_offers(providers: Seq<JsonTree>, p: int, m: int, option: Seq<char>)
    requires
        0 <= p < providers.len(),
        0 <= m < provider_models(providers[p]).len(),
    ensures
        offers(providers, p, m, option) <==> {
            &&& provider_name(providers[p]).len() > 0
            &&& option == model_option(
                provider_name(providers[p]),
                provider_models(providers[p])[m],
            )
            &&& option.len() > 0
        },
        place_before(p, m, p + 1, 0),
        place_before(p, m, p, m + 1),
        !place_before(p, m, p, m),
        !place_before(p + 1, 0, p, m),
{
}

/// Every option of a configuration is the option for a model of one of its providers.
pub proof fn law_options_come_from_providers(config: JsonTree, k: int)
    requires
        0 <= k < model_options(config).len(),
    ensures
        ({
            let upper = match json::array_field(config, "Providers"@) {
                Some(items) => items,
                None => Seq::empty(),
            };
            let lower = match json::array_field(config, "providers"@) {
                Some(items) => items,
                None => Seq::empty(),
            };
            exists|provider: JsonTree, model: Seq<char>|
                (upper.contains(provider) || lower.contains(provider)) && provider_models(
                    provider,
                ).contains(model) && model_options(config)[k] == #[trigger] model_option(
                    provider_name(provider),
                    model,
                )
        }),
{
    let upper = listed(config, "Providers"@);
    let lower = listed(config, "providers"@);
    let providers = upper + lower;
    law_model_options(config);
    let option = model_options(config)[k];
    assert(is_offered(providers, option));
    let (p, m) = choose|p: int, m: int| #[trigger] offers(providers, p, m, option);
    let provider = providers[p];
    let model = provider_models(provider)[m];
    if p < upper.len() {
        assert(upper[p] == provider);
    } else {
        assert(lower[p - upper.len()] == provider);
    }
    assert(option == model_option(provider_name(provider), model));
}

/// Every model of every provider with a name is among the options, unless it is blank.
pub proof fn law_no_model_is_missing(config: JsonTree, provider: JsonTree, model: Seq<char>)
    requires
        ({
            let upper = match json::array_field(config, "Providers"@) {
                Some(items) => items,
                None => Seq::empty(),
            };
            let lower = match json::array_field(config, "providers"@) {
                Some(items) => items,
                None => Seq::empty(),
            };
            upper.contains(provider) || lower.contains(provider)
        }),
        provider_models(provider).contains(model),
        model_option(provider_name(provider), model).len() > 0,
    ensures
        model_options(config).contains(model_option(provider_name(provider), model)),
{
    let upper = listed(config, "Providers"@);
    let lower = listed(config, "providers"@);
    let providers = upper + lower;
    let p = if upper.contains(provider) {
        choose|p: int| 0 <= p < upper.len() && upper[p] == provider
    } else {
        upper.len() + choose|p: int| 0 <= p < lower.len() && lower[p] == provider
    };
    let m = choose|m: int|
        0 <= m < provider_models(provider).len() && provider_models(provider)[m] == model;
    assert(providers[p] == provider);
    law_model_option(provider_name(provider), model);
    text::lemma_trimmed(provider_name(provider));
    assert(provider_name(provider).len() > 0);
    let option = model_option(provider_name(provider), model);
    assert(offers(providers, p, m, option));
    lemma_offers(providers, providers.len() as int);
    assert(providers.take(providers.len() as int) =~= providers);
    assert(place_before(p, m, providers.len() as int, 0));
}

} // verus!
