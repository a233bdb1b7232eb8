//! The entity factory: from spawning rules and templates to requests for non-player
//! characters, and from requests to characters.

use crate::float_bits::{float_to_whole, whole_number};
use crate::ids::{admits, default_dimension, DimensionId, DimensionState, DimensionTable};
use crate::mirror::PendingDimensionAttribution;
use crate::net_value::models;
use crate::text::{copy_text, is_text, text_of};
use vstd::prelude::*;

verus! {

/// A template of a non-player character.
pub struct EntityTemplate {
    pub entity_template_id: String,
    pub body: String,
    pub name: Option<String>,
    pub faction: String,
    pub loot: Option<String>,
    pub ai_behavior_override: String,
}

/// An [`EntityTemplate`] over text.
pub ghost struct TemplateModel {
    pub entity_template_id: Seq<char>,
    pub body: Seq<char>,
    pub name: Option<Seq<char>>,
    pub faction: Seq<char>,
    pub loot: Option<Seq<char>>,
    pub ai_behavior_override: Seq<char>,
}

impl View for EntityTemplate {
    type V = TemplateModel;

    open spec fn view(&self) -> TemplateModel {
        TemplateModel {
            entity_template_id: self.entity_template_id@,
            body: self.body@,
            name: text_of(self.name),
            faction: self.faction@,
            loot: text_of(self.loot),
            ai_behavior_override: self.ai_behavior_override@,
        }
    }
}

/// A template that was found, under the identifier that it was asked for by.
pub struct KnownTemplate {
    pub id: String,
    pub template: EntityTemplate,
}

/// Which characters an event spawns, and how they behave.
pub struct SpawningRules {
    pub entity_templates: Vec<String>,
    /// How many characters, as a bit pattern; the fraction does not count.
    pub spawn_count: u32,
    pub ai_behavior_override: String,
}

/// The first template under an identifier, counted from `from`.
pub open spec fn find_from(templates: Seq<KnownTemplate>, id: Seq<char>, from: int) -> Option<
    TemplateModel,
>
    decreases templates.len() - from,
{
    if from < 0 || from >= templates.len() {
        None
    } else if templates[from].id@ == id {
        Some(templates[from].template@)
    } else {
        find_from(templates, id, from + 1)
    }
}

/// The template under an identifier.
pub open spec fn find_template(templates: Seq<KnownTemplate>, id: Seq<char>) -> Option<
    TemplateModel,
> {
    find_from(templates, id, 0)
}

/// The template that the character at place `i` is made from: the rules' list is gone through
/// again and again, and the rules' behaviour replaces the template's own.
pub open spec fn staged_at(
    templates: Seq<KnownTemplate>,
    rules: SpawningRules,
    i: int,
) -> Option<TemplateModel> {
    let id = rules.entity_templates@[i % rules.entity_templates@.len() as int]@;
    match find_template(templates, id) {
        Some(template) => Some(
            TemplateModel {
                ai_behavior_override: rules.ai_behavior_override@,
                ..template
            },
        ),
        None => None,
    }
}

/// The first `n` characters that the rules ask for, without those whose template is unknown.
pub open spec fn staged(templates: Seq<KnownTemplate>, rules: SpawningRules, n: nat) -> Seq<
    TemplateModel,
>
    decreases n,
{
    if n == 0 {
        Seq::empty()
    } else {
        let before = staged(templates, rules, (n - 1) as nat);
        match staged_at(templates, rules, n - 1) {
            Some(template) => before.push(template),
            None => before,
        }
    }
}

/// All characters that the rules ask for; none without a template to make them from.
pub open spec fn staged_by(templates: Seq<KnownTemplate>, rules: SpawningRules) -> Seq<
    TemplateModel,
> {
    if rules.entity_templates@.len() == 0 {
        Seq::empty()
    } else {
        staged(templates, rules, whole_number(rules.spawn_count) as nat)
    }
}

fn copy_with_behavior(template: &EntityTemplate, behavior: &String) -> (copy: EntityTemplate)
    ensures
        copy@ == (TemplateModel { ai_behavior_override: behavior@, ..template@ }),
{
    EntityTemplate {
        entity_template_id: template.entity_template_id.clone(),
        body: template.body.clone(),
        name: copy_text(&template.name),
        faction: template.faction.clone(),
        loot: copy_text(&template.loot),
        ai_behavior_override: behavior.clone(),
    }
}

fn find_index(templates: &Vec<KnownTemplate>, id: &String) -> (found: Option<usize>)
    ensures
        match found {
            Some(i) => i < templates@.len() && find_template(templates@, id@) == Some(
                templates@[i as int].template@,
            ),
            None => find_template(templates@, id@) is None,
        },
{
    let mut i: usize = 0;
    while i < templates.len()
        invariant
            i <= templates.len(),
            find_template(templates@, id@) == find_from(templates@, id@, i as int),
        decreases templates.len() - i,
    {
        if templates[i].id == *id {
            return Some(i);
        }
        i += 1;
    }
    None
}

/// Turns spawning rules into templates to spawn characters from, one for each character, in
/// order. A character whose template is unknown is left out and stops no other.
pub fn spawn_from_spawning_rules(
    templates: &Vec<KnownTemplate>,
    rules: &SpawningRules,
) -> (spawned: Vec<EntityTemplate>)
    ensures
        models(spawned@) == staged_by(templates@, *rules),
{
    let mut spawned: Vec<EntityTemplate> = Vec::new();
    assert(models(spawned@) =~= Seq::<TemplateModel>::empty());
    if rules.entity_templates.len() == 0 {
        return spawned;
    }
    let count: u32 = float_to_whole(rules.spawn_count);
    let mut i: u32 = 0;
    while i < count
        invariant
            i <= count,
            rules.entity_templates@.len() > 0,
            models(spawned@) == staged(templates@, *rules, i as nat),
        decreases count - i,
    {
        let ghost before = spawned@;
        let place: usize = (i as usize) % rules.entity_templates.len();
        if let Some(k) = find_index(templates, &rules.entity_templates[place]) {
            let template = copy_with_behavior(&templates[k].template, &rules.ai_behavior_override);
            spawned.push(template);
            assert(models(spawned@) =~= models(before).push(template@));
        }
        i += 1;
    }
    spawned
}

/// Every character carries the behaviour of the rules, whatever its template says.
pub proof fn law_rules_override_behavior(
    templates: Seq<KnownTemplate>,
    rules: SpawningRules,
    n: nat,
    k: int,
)
    requires
        0 <= k < staged(templates, rules, n).len(),
    ensures
        staged(templates, rules, n)[k].ai_behavior_override == rules.ai_behavior_override@,
    decreases n,
{
    if k < staged(templates, rules, (n - 1) as nat).len() {
        law_rules_override_behavior(templates, rules, (n - 1) as nat, k);
    }
}

/// Where all templates are known, exactly as many characters are spawned as the rules ask for.
pub proof fn law_spawns_exact_count(templates: Seq<KnownTemplate>, rules: SpawningRules, n: nat)
    requires
        rules.entity_templates@.len() > 0,
        forall|i: int|
            0 <= i < rules.entity_templates@.len() ==> find_template(
                templates,
                (#[trigger] rules.entity_templates@[i])@,
            ) is Some,
    ensures
        staged(templates, rules, n).len() == n,
    decreases n,
{
    if n > 0 {
        law_spawns_exact_count(templates, rules, (n - 1) as nat);
        let place = (n - 1) % rules.entity_templates@.len() as int;
        assert(find_template(templates, rules.entity_templates@[place]@) is Some);
    }
}

/// Never more characters are spawned than the rules ask for.
pub proof fn law_never_more_than_asked(templates: Seq<KnownTemplate>, rules: SpawningRules, n: nat)
    ensures
        staged(templates, rules, n).len() <= n,
    decreases n,
{
    if n > 0 {
        law_never_more_than_asked(templates, rules, (n - 1) as nat);
    }
}

/// On which side a character stands.
#[derive(Clone, Copy, Debug, PartialEq, Eq, Structural)]
pub enum Alignment {
    Wild,
    Enemy,
    Npc,
    Tame,
    Passive,
}

/// The side that a faction's name stands for; an unknown name stands for the wild.
pub open spec fn faction_alignment(name: Seq<char>) -> Alignment {
    if name == "enemy"@ {
        Alignment::Enemy
    } else if name == "npc"@ {
        Alignment::Npc
    } else if name == "tame"@ {
        Alignment::Tame
    } else if name == "passive"@ {
        Alignment::Passive
    } else {
        Alignment::Wild
    }
}

/// The side that a faction's name stands for.
pub fn resolve_faction(name: &str) -> (alignment: Alignment)
    ensures
        alignment == faction_alignment(name@),
{
    if is_text(name, "enemy") {
        Alignment::Enemy
    } else if is_text(name, "npc") {
        Alignment::Npc
    } else if is_text(name, "tame") {
        Alignment::Tame
    } else if is_text(name, "passive") {
        Alignment::Passive
    } else {
        Alignment::Wild
    }
}

/// A staged request for a character.
pub struct PendingSpawn {
    /// The staging entity.
    pub entity: u64,
    pub dimension: DimensionId,
    pub body: Option<String>,
    /// The name that characters of this body get; `None` where the body is not recognised.
    pub body_name: Option<String>,
    pub name: Option<String>,
    pub faction: Option<String>,
    pub loot: Option<String>,
    pub ai_behavior: Option<String>,
}

/// A character to create, from the request at index `request`.
pub struct NpcSpawn {
    pub request: usize,
    pub dimension: DimensionId,
    pub name: String,
    pub alignment: Alignment,
    /// The item that it drops, if any.
    pub loot: Option<String>,
    /// The name of its behaviour; `None` stands for the passive one.
    pub ai_behavior: Option<String>,
}

/// An [`NpcSpawn`] over text.
pub ghost struct NpcModel {
    pub request: int,
    pub dimension: DimensionId,
    pub name: Seq<char>,
    pub alignment: Alignment,
    pub loot: Option<Seq<char>>,
    pub ai_behavior: Option<Seq<char>>,
}

impl View for NpcSpawn {
    type V = NpcModel;

    open spec fn view(&self) -> NpcModel {
        NpcModel {
            request: self.request as int,
            dimension: self.dimension,
            name: self.name@,
            alignment: self.alignment,
            loot: text_of(self.loot),
            ai_behavior: text_of(self.ai_behavior),
        }
    }
}

/// The character that a request calls for. Its dimension has to be the default one or active,
/// and its body has to be named and recognised. A name of its own goes before that of its
/// body; without a faction it is wild.
pub open spec fn npc_for(
    i: int,
    request: PendingSpawn,
    table: Map<u64, DimensionState>,
) -> Option<NpcModel> {
    if request.dimension != default_dimension() && !admits(table, request.dimension) {
        None
    } else if request.body is None || request.body_name is None {
        None
    } else {
        Some(
            NpcModel {
                request: i,
                dimension: request.dimension,
                name: match request.name {
                    Some(name) => name@,
                    None => request.body_name->0@,
                },
                alignment: match request.faction {
                    Some(faction) => faction_alignment(faction@),
                    None => Alignment::Wild,
                },
                loot: text_of(request.loot),
                ai_behavior: text_of(request.ai_behavior),
            },
        )
    }
}

/// The characters that a list of requests calls for, in order.
pub open spec fn npcs_for(
    requests: Seq<PendingSpawn>,
    table: Map<u64, DimensionState>,
) -> Seq<NpcModel>
    decreases requests.len(),
{
    if requests.len() == 0 {
        Seq::empty()
    } else {
        let before = npcs_for(requests.drop_last(), table);
        match npc_for(requests.len() - 1, requests.last(), table) {
            Some(npc) => before.push(npc),
            None => before,
        }
    }
}

/// The dimensions other than the default one that characters go to, in their order.
pub open spec fn attributions(npcs: Seq<NpcModel>) -> Seq<DimensionId>
    decreases npcs.len(),
{
    if npcs.len() == 0 {
        Seq::empty()
    } else if npcs.last().dimension != default_dimension() {
        attributions(npcs.drop_last()).push(npcs.last().dimension)
    } else {
        attributions(npcs.drop_last())
    }
}

/// Decides on one request.
pub fn resolve_request(
    i: usize,
    request: &PendingSpawn,
    table: &DimensionTable,
) -> (npc: Option<NpcSpawn>)
    ensures
        npc is Some <==> npc_for(i as int, *request, table@) is Some,
        npc is Some ==> npc->0@ == npc_for(i as int, *request, table@)->0,
{
    if request.dimension != DimensionId::default_id() && !table.accepts(request.dimension) {
        return None;
    }
    if request.body.is_none() {
        return None;
    }
    let body_name = match &request.body_name {
        Some(body_name) => body_name,
        None => {
            return None;
        },
    };
    let name = match &request.name {
        Some(name) => name.clone(),
        None => body_name.clone(),
    };
    let alignment = match &request.faction {
        Some(faction) => resolve_faction(faction.as_str()),
        None => Alignment::Wild,
    };
    Some(
        NpcSpawn {
            request: i,
            dimension: request.dimension,
            name,
            alignment,
            loot: copy_text(&request.loot),
            ai_behavior: copy_text(&request.ai_behavior),
        },
    )
}

/// What becomes of the staged requests: every staging entity goes, and some requests become
/// characters.
pub struct FactoryPlan {
    pub despawn: Vec<u64>,
    pub npcs: Vec<NpcSpawn>,
}

/// Decides on all staged requests, and notes the dimension of each character that does not
/// belong to the default one, in the order in which they are created. Without a simulation
/// the requests stay staged.
pub fn apply_pending_entity_template_spawns(
    sim_present: bool,
    requests: &Vec<PendingSpawn>,
    table: &DimensionTable,
    attribution: &mut PendingDimensionAttribution,
) -> (plan: FactoryPlan)
    ensures
        sim_present ==> {
            &&& plan.despawn@ == requests@.map_values(|request: PendingSpawn| request.entity)
            &&& models(plan.npcs@) == npcs_for(requests@, table@)
            &&& final(attribution).0@ == old(attribution).0@ + attributions(
                npcs_for(requests@, table@),
            )
        },
        !sim_present ==> {
            &&& plan.despawn@.len() == 0
            &&& plan.npcs@.len() == 0
            &&& final(attribution).0@ == old(attribution).0@
        },
{
    let mut despawn: Vec<u64> = Vec::new();
    let mut npcs: Vec<NpcSpawn> = Vec::new();
    if !sim_present {
        return FactoryPlan { despawn, npcs };
    }
    let ghost queued = attribution.0@;
    let mut i: usize = 0;
    assert(models(npcs@) =~= Seq::<NpcModel>::empty());
    assert(attribution.0@ =~= queued + attributions(models(npcs@)));
    while i < requests.len()
        invariant
            i <= requests.len(),
            despawn@.len() == i,
            forall|j: int| 0 <= j < i ==> despawn@[j] == (#[trigger] requests@[j]).entity,
            models(npcs@) == npcs_for(requests@.take(i as int), table@),
            attribution.0@ == queued + attributions(models(npcs@)),
        decreases requests.len() - i,
    {
        let ghost before = npcs@;
        proof {
            assert(requests@.take(i as int + 1).drop_last() =~= requests@.take(i as int));
        }
        despawn.push(requests[i].entity);
        if let Some(npc) = resolve_request(i, &requests[i], table) {
            if npc.dimension != DimensionId::default_id() {
                attribution.0.push_back(npc.dimension);
            }
            npcs.push(npc);
            proof {
                assert(models(npcs@) =~= models(before).push(npc@));
                assert(models(npcs@).drop_last() =~= models(before));
                assert(attribution.0@ =~= queued + attributions(models(npcs@)));
            }
        }
        i += 1;
    }
    assert(requests@.take(i as int) =~= requests@);
    assert(despawn@ =~= requests@.map_values(|request: PendingSpawn| request.entity));
    FactoryPlan { despawn, npcs }
}

/// A character that does not belong to the default dimension is only ever created while its
/// dimension is active.
pub proof fn law_characters_only_in_active_dimensions(
    requests: Seq<PendingSpawn>,
    table: Map<u64, DimensionState>,
    k: int,
)
    requires
        0 <= k < npcs_for(requests, table).len(),
    ensures
        ({
            let npc = npcs_for(requests, table)[k];
            npc.dimension == default_dimension() || admits(table, npc.dimension)
        }),
    decreases requests.len(),
{
    if k < npcs_for(requests.drop_last(), table).len() {
        law_characters_only_in_active_dimensions(requests.drop_last(), table, k);
    }
}

/// Every noted attribution is of a dimension that admits entrants, and none is of the default
/// one.
pub proof fn law_attributions_are_active(
    requests: Seq<PendingSpawn>,
    table: Map<u64, DimensionState>,
    k: int,
)
    requires
        0 <= k < attributions(npcs_for(requests, table)).len(),
    ensures
        attributions(npcs_for(requests, table))[k] != default_dimension(),
        admits(table, attributions(npcs_for(requests, table))[k]),
    decreases requests.len(),
{
    let before = npcs_for(requests.drop_last(), table);
    let all = npcs_for(requests, table);
    if requests.len() > 0 {
        if all.len() > before.len() {
            assert(all.drop_last() =~= before);
        }
        if k < attributions(before).len() {
            law_attributions_are_active(requests.drop_last(), table, k);
        }
    }
}

proof fn lemma_find_from(templates: Seq<KnownTemplate>, id: Seq<char>, from: int)
    requires
        0 <= from <= templates.len(),
    ensures
        find_from(templates, id, from) is None <==> forall|i: int|
            from <= i < templates.len() ==> (#[trigger] templates[i]).id@ != id,
        forall|i: int|
            from <= i < templates.len() && (#[trigger] templates[i]).id@ == id && (forall|j: int|
                from <= j < i ==> (#[trigger] templates[j]).id@ != id) ==> find_from(
                templates,
                id,
                from,
            ) == Some(templates[i].template@),
    decreases templates.len() - from,
{
    if from < templates.len() {
        lemma_find_from(templates, id, from + 1);
        assert(templates[from].id@ == id ==> find_from(templates, id, from) is Some);
    }
}

/// A template is found exactly where one is known under the identifier, and is the first such
/// one.
pub proof fn law_template_is_found_by_its_id(templates: Seq<KnownTemplate>, id: Seq<char>)
    ensures
        find_template(templates, id) is Some <==> exists|i: int|
            0 <= i < templates.len() && (#[trigger] templates[i]).id@ == id,
        forall|i: int|
            0 <= i < templates.len() && (#[trigger] templates[i]).id@ == id && (forall|j: int|
                0 <= j < i ==> (#[trigger] templates[j]).id@ != id) ==> find_template(
                templates,
                id,
            ) == Some(templates[i].template@),
{
    lemma_find_from(templates, id, 0);
}

/// The rules stage one entity for each of the spawns that they ask for, going round the list of
/// templates as often as it takes; each is as its template says but for the behaviour, which the
/// rules give. A spawn whose template is not known is left out, and without templates in the
/// rules there is none.
pub proof fn law_rules_go_round_their_templates(
    templates: Seq<KnownTemplate>,
    rules: SpawningRules,
    i: int,
)
    requires
        i >= 0,
    ensures
        rules.entity_templates@.len() == 0 ==> staged_by(templates, rules).len() == 0,
        rules.entity_templates@.len() > 0 ==> {
            let asked = rules.entity_templates@;
            let id = asked[i % asked.len() as int]@;
            let staged = staged_at(templates, rules, i);
            &&& staged is Some <==> find_template(templates, id) is Some
            &&& staged is Some ==> {
                let template = find_template(templates, id)->0;
                &&& staged->0.entity_template_id == template.entity_template_id
                &&& staged->0.body == template.body
                &&& staged->0.name == template.name
                &&& staged->0.faction == template.faction
                &&& staged->0.loot == template.loot
                &&& staged->0.ai_behavior_override == rules.ai_behavior_override@
            }
            &&& staged == staged_at(templates, rules, i + asked.len())
            &&& i < asked.len() ==> id == asked[i]@
        },
{
    if rules.entity_templates@.len() > 0 {
        let n = rules.entity_templates@.len() as int;
        vstd::arithmetic::div_mod::lemma_mod_add_multiples_vanish(i, n);
        assert((n + i) % n == i % n);
        if i < n {
            vstd::arithmetic::div_mod::lemma_small_mod(i as nat, n as nat);
        }
    }
}

/// Everything that can be staged is staged, in the order of the spawns, as many of them as the
/// rules ask for in whole numbers.
pub proof fn law_every_spawn_is_staged(templates: Seq<KnownTemplate>, rules: SpawningRules, n: nat)
    ensures
        staged(templates, rules, n) == Seq::new(
            n,
            |i: int| staged_at(templates, rules, i),
        ).filter(|template: Option<TemplateModel>| template is Some).map_values(
            |template: Option<TemplateModel>| template->0,
        ),
        rules.entity_templates@.len() > 0 ==> staged_by(templates, rules) == staged(
            templates,
            rules,
            whole_number(rules.spawn_count) as nat,
        ),
    decreases n,
{
    reveal(Seq::filter);
    let all = Seq::new(n, |i: int| staged_at(templates, rules, i));
    if n > 0 {
        let fewer = (n - 1) as nat;
        law_every_spawn_is_staged(templates, rules, fewer);
        let init = Seq::new(fewer, |i: int| staged_at(templates, rules, i));
        assert(all.drop_last() =~= init);
        let kept = init.filter(|template: Option<TemplateModel>| template is Some);
        assert(kept.push(all.last()).map_values(|template: Option<TemplateModel>| template->0)
            =~= kept.map_values(|template: Option<TemplateModel>| template->0).push(
            all.last()->0,
        ));
    }
    assert(staged(templates, rules, n) =~= all.filter(
        |template: Option<TemplateModel>| template is Some,
    ).map_values(|template: Option<TemplateModel>| template->0));
}

/// Each faction that has a name of its own has its own alignment, and every other name stands
/// for what is wild.
pub proof fn law_factions_are_told_apart(name: Seq<char>)
    ensures
        faction_alignment(name) is Enemy <==> name == "enemy"@,
        faction_alignment(name) is Npc <==> name == "npc"@,
        faction_alignment(name) is Tame <==> name == "tame"@,
        faction_alignment(name) is Passive <==> name == "passive"@,
        faction_alignment(name) is Wild <==> name != "enemy"@ && name != "npc"@ && name != "tame"@
            && name != "passive"@,
{
    reveal_strlit("enemy");
    reveal_strlit("npc");
    reveal_strlit("tame");
    reveal_strlit("passive");
    assert("npc"@.len() == 3 && "tame"@.len() == 4 && "enemy"@.len() == 5 && "passive"@.len() == 7);
}

/// A request becomes a character exactly where its body is known and its dimension is the
/// default one or takes new entrants: in that dimension, under its own name or, without one,
/// that of its body, of its own faction or else wild, and with its own loot and behaviour.
pub proof fn law_request_becomes_its_character(
    i: int,
    request: PendingSpawn,
    table: Map<u64, DimensionState>,
)
    ensures
        ({
            let npc = npc_for(i, request, table);
            let open = request.dimension.0 == 0 || (table.contains_key(request.dimension.0)
                && table[request.dimension.0].lifecycle is Active);
            &&& npc is Some <==> open && request.body is Some && request.body_name is Some
            &&& npc is Some ==> {
                &&& npc->0.request == i
                &&& npc->0.dimension == request.dimension
                &&& request.name is Some ==> npc->0.name == request.name->0@
                &&& request.name is None ==> npc->0.name == request.body_name->0@
                &&& request.faction is Some ==> npc->0.alignment == faction_alignment(
                    request.faction->0@,
                )
                &&& request.faction is None ==> npc->0.alignment is Wild
                &&& npc->0.loot is Some <==> request.loot is Some
                &&& request.loot is Some ==> npc->0.loot->0 == request.loot->0@
                &&& npc->0.ai_behavior is Some <==> request.ai_behavior is Some
                &&& request.ai_behavior is Some ==> npc->0.ai_behavior->0
                    == request.ai_behavior->0@
            }
        }),
{
}

/// Every request that becomes a character has one, in the order of the requests.
pub proof fn law_every_request_is_served(
    requests: Seq<PendingSpawn>,
    table: Map<u64, DimensionState>,
)
    ensures
        npcs_for(requests, table) == Seq::new(
            requests.len(),
            |i: int| npc_for(i, requests[i], table),
        ).filter(|npc: Option<NpcModel>| npc is Some).map_values(|npc: Option<NpcModel>| npc->0),
    decreases requests.len(),
{
    reveal(Seq::filter);
    let all = Seq::new(requests.len(), |i: int| npc_for(i, requests[i], table));
    if requests.len() > 0 {
        let fewer = requests.drop_last();
        law_every_request_is_served(fewer, table);
        let init = Seq::new(fewer.len(), |i: int| npc_for(i, fewer[i], table));
        assert(all.drop_last() =~= init);
        let kept = init.filter(|npc: Option<NpcModel>| npc is Some);
        assert(kept.push(all.last()).map_values(|npc: Option<NpcModel>| npc->0)
            =~= kept.map_values(|npc: Option<NpcModel>| npc->0).push(all.last()->0));
    }
    assert(npcs_for(requests, table) =~= all.filter(|npc: Option<NpcModel>| npc is Some).map_values(
        |npc: Option<NpcModel>| npc->0,
    ));
}

/// Every character outside the default dimension waits to be attributed to its own, in the order
/// of the characters, and none inside it does.
pub proof fn law_outsiders_are_attributed(npcs: Seq<NpcModel>)
    ensures
        attributions(npcs) == npcs.filter(|npc: NpcModel| npc.dimension.0 != 0).map_values(
            |npc: NpcModel| npc.dimension,
        ),
    decreases npcs.len(),
{
    reveal(Seq::filter);
    if npcs.len() > 0 {
        let init = npcs.drop_last();
        law_outsiders_are_attributed(init);
        let kept = init.filter(|npc: NpcModel| npc.dimension.0 != 0);
        assert(kept.push(npcs.last()).map_values(|npc: NpcModel| npc.dimension)
            =~= kept.map_values(|npc: NpcModel| npc.dimension).push(npcs.last().dimension));
    }
    assert(attributions(npcs) =~= npcs.filter(|npc: NpcModel| npc.dimension.0 != 0).map_values(
        |npc: NpcModel| npc.dimension,
    ));
}

} // verus!
