//! The roster of the player's account: what clients see of it, and what they ask to be done
//! with its characters.

use crate::net_value::{alike_all, duplicate_all, model_of, models, same_all, NetValue};
use crate::text::{copy_text, same_text, text_of};
use vstd::prelude::*;

verus! {

/// A character of the account. One that is still being created has no `id` yet. Its body is
/// known by its written form.
pub struct CharacterItem {
    pub id: Option<i64>,
    pub alias: String,
    pub body: String,
    pub hardcore: bool,
    pub location: Option<String>,
}

/// The roster, as the account's client knows it.
pub struct CharacterList {
    pub characters: Vec<CharacterItem>,
    pub loading: bool,
}

/// A character of the roster, as clients see it.
pub struct NetCharListEntry {
    pub id: i64,
    pub alias: String,
    pub body: String,
    pub hardcore: bool,
    pub location: Option<String>,
}

/// The roster, as clients see it.
pub struct NetCharList {
    pub characters: Vec<NetCharListEntry>,
    pub loading: bool,
}

/// A [`NetCharListEntry`] over text.
pub ghost struct CharEntryModel {
    pub id: i64,
    pub alias: Seq<char>,
    pub body: Seq<char>,
    pub hardcore: bool,
    pub location: Option<Seq<char>>,
}

/// A [`NetCharList`] over text.
pub ghost struct CharListModel {
    pub characters: Seq<CharEntryModel>,
    pub loading: bool,
}

impl View for NetCharListEntry {
    type V = CharEntryModel;

    open spec fn view(&self) -> CharEntryModel {
        CharEntryModel {
            id: self.id,
            alias: self.alias@,
            body: self.body@,
            hardcore: self.hardcore,
            location: text_of(self.location),
        }
    }
}

impl View for NetCharList {
    type V = CharListModel;

    open spec fn view(&self) -> CharListModel {
        CharListModel { characters: models(self.characters@), loading: self.loading }
    }
}

impl NetValue for NetCharListEntry {
    open spec fn alike(a: CharEntryModel, b: CharEntryModel) -> bool {
        a == b
    }

    fn same(&self, other: &Self) -> (same: bool) {
        self.id == other.id && self.alias == other.alias && self.body == other.body
            && self.hardcore == other.hardcore && same_text(&self.location, &other.location)
    }

    fn duplicate(&self) -> (copy: Self) {
        NetCharListEntry {
            id: self.id,
            alias: self.alias.clone(),
            body: self.body.clone(),
            hardcore: self.hardcore,
            location: copy_text(&self.location),
        }
    }
}

impl NetValue for NetCharList {
    open spec fn alike(a: CharListModel, b: CharListModel) -> bool {
        a == b
    }

    fn same(&self, other: &Self) -> (same: bool) {
        let same_characters = same_all(&self.characters, &other.characters);
        proof {
            assert(alike_all::<NetCharListEntry>(self@.characters, other@.characters)
                ==> self@.characters =~= other@.characters);
        }
        self.loading == other.loading && same_characters
    }

    fn duplicate(&self) -> (copy: Self) {
        NetCharList { characters: duplicate_all(&self.characters), loading: self.loading }
    }
}

/// What clients see of the characters of a roster: those that have been created, in order.
pub open spec fn listed(items: Seq<CharacterItem>) -> Seq<CharEntryModel>
    decreases items.len(),
{
    if items.len() == 0 {
        Seq::empty()
    } else {
        let before = listed(items.drop_last());
        let item = items.last();
        match item.id {
            Some(id) => before.push(
                CharEntryModel {
                    id,
                    alias: item.alias@,
                    body: item.body@,
                    hardcore: item.hardcore,
                    location: text_of(item.location),
                },
            ),
            None => before,
        }
    }
}

/// What clients see of a roster.
pub open spec fn roster(list: CharacterList) -> CharListModel {
    CharListModel { characters: listed(list.characters@), loading: list.loading }
}

/// What clients see of a roster. A character that is still being created is left out.
pub fn project_char_list(list: &CharacterList) -> (net: NetCharList)
    ensures
        net@ == roster(*list),
{
    let mut characters: Vec<NetCharListEntry> = Vec::new();
    let mut i: usize = 0;
    assert(models(characters@) =~= listed(list.characters@.take(0)));
    while i < list.characters.len()
        invariant
            i <= list.characters.len(),
            models(characters@) == listed(list.characters@.take(i as int)),
        decreases list.characters.len() - i,
    {
        proof {
            assert(list.characters@.take(i as int + 1).drop_last() =~= list.characters@.take(
                i as int,
            ));
        }
        let item = &list.characters[i];
        let ghost before = characters@;
        if let Some(id) = item.id {
            characters.push(
                NetCharListEntry {
                    id,
                    alias: item.alias.clone(),
                    body: item.body.clone(),
                    hardcore: item.hardcore,
                    location: copy_text(&item.location),
                },
            );
            assert(models(characters@) =~= models(before).push(characters@.last()@));
        }
        i += 1;
    }
    assert(list.characters@.take(i as int) =~= list.characters@);
    NetCharList { characters, loading: list.loading }
}

/// The roster that was broadcast last.
pub struct CharListMirrorCache(pub Option<NetCharList>);

/// What is broadcast of a roster, given what was broadcast last: nothing where there is no
/// player, or where clients would see no difference.
pub open spec fn roster_news(last: Option<CharListModel>, list: Option<CharacterList>) -> Option<
    CharListModel,
> {
    match list {
        Some(list) => if last == Some(roster(list)) {
            None
        } else {
            Some(roster(list))
        },
        None => None,
    }
}

/// What counts as broadcast last once `news` went out.
pub open spec fn roster_after(last: Option<CharListModel>, news: Option<CharListModel>) -> Option<
    CharListModel,
> {
    match news {
        Some(news) => Some(news),
        None => last,
    }
}

impl CharListMirrorCache {
    /// Nothing was broadcast yet.
    pub fn new() -> (cache: CharListMirrorCache)
        ensures
            model_of(cache.0) is None,
    {
        CharListMirrorCache(None)
    }
}

/// Broadcasts the roster where it changed. `list` is `None` without a player.
pub fn broadcast_char_list(list: Option<&CharacterList>, cache: &mut CharListMirrorCache) -> (news:
    Option<NetCharList>)
    ensures
        model_of(news) == roster_news(
            model_of(old(cache).0),
            match list {
                Some(list) => Some(*list),
                None => None,
            },
        ),
        model_of(final(cache).0) == roster_after(model_of(old(cache).0), model_of(news)),
{
    let list = match list {
        Some(list) => list,
        None => {
            return None;
        },
    };
    let projected = project_char_list(list);
    let unchanged = match &cache.0 {
        Some(last) => last.same(&projected),
        None => false,
    };
    if unchanged {
        return None;
    }
    cache.0 = Some(projected.duplicate());
    Some(projected)
}

/// An unchanged roster is broadcast once.
pub proof fn law_roster_is_broadcast_once(last: Option<CharListModel>, list: CharacterList)
    ensures
        ({
            let next = roster_after(last, roster_news(last, Some(list)));
            &&& next == Some(roster(list))
            &&& roster_news(next, Some(list)) is None
        }),
{
}

/// A roster that lost its difference and got it back is broadcast both times: what clients
/// hold is always what was broadcast last.
pub proof fn law_roster_change_is_broadcast(
    last: Option<CharListModel>,
    list: CharacterList,
    next: CharacterList,
)
    requires
        roster(list) != roster(next),
    ensures
        ({
            let held = roster_after(last, roster_news(last, Some(list)));
            roster_news(held, Some(next)) == Some(roster(next))
        }),
{
}

/// Every character that clients see has been created, and every one that has been created is
/// seen.
pub proof fn law_roster_lists_the_created(items: Seq<CharacterItem>, id: i64)
    ensures
        (exists|k: int| 0 <= k < listed(items).len() && (#[trigger] listed(items)[k]).id == id)
            <==> (exists|i: int| 0 <= i < items.len() && (#[trigger] items[i]).id == Some(id)),
    decreases items.len(),
{
    if items.len() > 0 {
        let front = items.drop_last();
        law_roster_lists_the_created(front, id);
        let before = listed(front);
        let now = listed(items);
        if exists|k: int| 0 <= k < now.len() && (#[trigger] now[k]).id == id {
            let k = choose|k: int| 0 <= k < now.len() && (#[trigger] now[k]).id == id;
            if k < before.len() {
                assert(before[k].id == id);
                let i = choose|i: int| 0 <= i < front.len() && (#[trigger] front[i]).id == Some(id);
                assert(items[i].id == Some(id));
            } else {
                assert(items[items.len() - 1].id == Some(id));
            }
        }
        if exists|i: int| 0 <= i < items.len() && (#[trigger] items[i]).id == Some(id) {
            let i = choose|i: int| 0 <= i < items.len() && (#[trigger] items[i]).id == Some(id);
            if i < front.len() {
                assert(front[i].id == Some(id));
                let k = choose|k: int| 0 <= k < before.len() && (#[trigger] before[k]).id == id;
                assert(now[k].id == id);
            } else {
                assert(now[before.len() as int].id == id);
            }
        }
    }
}

/// What the account's client is told to do.
#[derive(Clone, Copy, Debug, PartialEq, Eq, Structural)]
pub enum CharCommand {
    /// Create the character that the request at this place asks for.
    Create(usize),
    Delete(i64),
    Select(i64),
}

/// The commands that a pass gives: creations, then deletions, then selections, each in the
/// order of the requests; none without a player.
pub open spec fn char_commands(
    has_player: bool,
    creates: nat,
    deletes: Seq<i64>,
    selects: Seq<i64>,
) -> Seq<CharCommand> {
    if has_player {
        Seq::new(creates, |i: int| CharCommand::Create(i as usize)) + deletes.map_values(
            |id: i64| CharCommand::Delete(id),
        ) + selects.map_values(|id: i64| CharCommand::Select(id))
    } else {
        Seq::empty()
    }
}

/// Passes on what clients ask to be done with the account's characters: `creates` requests to
/// create one, and the characters to delete and to select. Without a player all of it is
/// dropped.
pub fn apply_char_requests(
    has_player: bool,
    creates: usize,
    deletes: &Vec<i64>,
    selects: &Vec<i64>,
) -> (commands: Vec<CharCommand>)
    ensures
        commands@ == char_commands(has_player, creates as nat, deletes@, selects@),
{
    let mut commands: Vec<CharCommand> = Vec::new();
    if !has_player {
        return commands;
    }
    let mut i: usize = 0;
    while i < creates
        invariant
            i <= creates,
            commands@ == Seq::new(i as nat, |k: int| CharCommand::Create(k as usize)),
        decreases creates - i,
    {
        commands.push(CharCommand::Create(i));
        i += 1;
        assert(commands@ =~= Seq::new(i as nat, |k: int| CharCommand::Create(k as usize)));
    }
    let ghost created = commands@;
    let ghost delete = |id: i64| CharCommand::Delete(id);
    let mut d: usize = 0;
    assert(commands@ =~= created + deletes@.take(0).map_values(delete));
    while d < deletes.len()
        invariant
            d <= deletes.len(),
            delete == (|id: i64| CharCommand::Delete(id)),
            commands@ == created + deletes@.take(d as int).map_values(delete),
        decreases deletes.len() - d,
    {
        commands.push(CharCommand::Delete(deletes[d]));
        d += 1;
        assert(commands@ =~= created + deletes@.take(d as int).map_values(delete));
    }
    assert(deletes@.take(d as int) =~= deletes@);
    let ghost deleted = commands@;
    let ghost select = |id: i64| CharCommand::Select(id);
    let mut s: usize = 0;
    assert(commands@ =~= deleted + selects@.take(0).map_values(select));
    while s < selects.len()
        invariant
            s <= selects.len(),
            select == (|id: i64| CharCommand::Select(id)),
            commands@ == deleted + selects@.take(s as int).map_values(select),
        decreases selects.len() - s,
    {
        commands.push(CharCommand::Select(selects[s]));
        s += 1;
        assert(commands@ =~= deleted + selects@.take(s as int).map_values(select));
    }
    assert(selects@.take(s as int) =~= selects@);
    commands
}

/// The roster lists the characters that exist already, in order, each with its own name, body,
/// fate and whereabouts, and says whether it is still loading.
pub proof fn law_roster_shows_its_characters(list: CharacterList)
    ensures
        ({
            let shown = roster(list);
            let held = list.characters@.filter(|item: CharacterItem| item.id is Some);
            &&& shown.loading == list.loading
            &&& shown.characters.len() == held.len()
            &&& forall|k: int|
                #![trigger shown.characters[k]]
                #![trigger held[k]]
                0 <= k < held.len() ==> {
                    let entry = shown.characters[k];
                    &&& Some(entry.id) == held[k].id
                    &&& entry.alias == held[k].alias@
                    &&& entry.body == held[k].body@
                    &&& entry.hardcore == held[k].hardcore
                    &&& entry.location is Some <==> held[k].location is Some
                    &&& entry.location is Some ==> entry.location->0 == held[k].location->0@
                }
        }),
{
    lemma_listed(list.characters@);
}

proof fn lemma_listed(items: Seq<CharacterItem>)
    ensures
        ({
            let shown = listed(items);
            let held = items.filter(|item: CharacterItem| item.id is Some);
            &&& shown.len() == held.len()
            &&& forall|k: int|
                #![trigger shown[k]]
                #![trigger held[k]]
                0 <= k < held.len() ==> {
                    &&& Some(shown[k].id) == held[k].id
                    &&& shown[k].alias == held[k].alias@
                    &&& shown[k].body == held[k].body@
                    &&& shown[k].hardcore == held[k].hardcore
                    &&& shown[k].location == text_of(held[k].location)
                }
        }),
    decreases items.len(),
{
    reveal(Seq::filter);
    if items.len() > 0 {
        lemma_listed(items.drop_last());
    }
}

/// Without a player nothing is asked for. With one, every request is passed on once: all
/// creations first, each by its place, then the deletions and then the selections, each of the
/// character that it names.
pub proof fn law_char_requests_are_passed_on(creates: nat, deletes: Seq<i64>, selects: Seq<i64>)
    requires
        creates <= usize::MAX,
    ensures
        char_commands(false, creates, deletes, selects).len() == 0,
        ({
            let commands = char_commands(true, creates, deletes, selects);
            &&& commands.len() == creates + deletes.len() + selects.len()
            &&& forall|i: int|
                0 <= i < creates ==> (#[trigger] commands[i]) is Create && commands[i]->Create_0 == i
            &&& forall|i: int|
                0 <= i < deletes.len() ==> commands[creates + i] == CharCommand::Delete(
                    #[trigger] deletes[i],
                )
            &&& forall|i: int|
                0 <= i < selects.len() ==> commands[creates + deletes.len() + i]
                    == CharCommand::Select(#[trigger] selects[i])
        }),
{
}

/// News comes exactly where the roster differs from what was told last, or nothing was told
/// yet, and is the roster; without a list there is none, and nothing is forgotten.
pub proof fn law_roster_news_is_the_roster(last: Option<CharListModel>, list: Option<CharacterList>)
    ensures
        roster_news(last, list) is Some <==> list is Some && (last is None || last->0 != roster(
            list->0,
        )),
        roster_news(last, list) is Some ==> roster_news(last, list)->0 == roster(list->0),
        list is None ==> roster_after(last, roster_news(last, list)) == last,
        list is Some ==> roster_after(last, roster_news(last, list)) == Some(roster(list->0)),
{
}

} // verus!
