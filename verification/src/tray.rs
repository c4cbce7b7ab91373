//! The tray: its start, the pictures it keeps and draws, its clicks and its menus.

use vstd::prelude::*;

use crate::draw::{
    as_signed, leftover_bytes_are_unchanged, pixels_are_premultiplied, premultiplied, premultiply,
    signed, signed_keeps_the_bits, stride,
};
use crate::icon::CachedIcon;
use crate::id_map::IdMap;
use crate::item::{
    names_a_menu, only_nothing_and_the_root_name_no_menu, Image, Item, ItemId,
};
use crate::menu::{
    a_label_stands_for_the_first_visible_entry, answers_to, depth, find_label, first_labelled,
    first_labelled_is_first, has_entries, menu_input, menu_text, offers_something, parse_command,
    submenu_is_less_deep, text_of, walk_result, what_is_offered, Launch, MenuNode,
};
use crate::order::{ascending, text_less, text_less_is_an_order};
use crate::shared_state::SharedState;
use crate::text::{white_space, words, words_are_of_solid_characters};

verus! {

/// What to do next while the items that are there from the start are discovered.
#[derive(Debug, Clone, Copy, PartialEq, Eq, Structural)]
pub enum DrainStep {
    PollAgain,
    /// All is discovered; `dirty` says whether there was any item.
    Finished { dirty: bool },
}

/// The discovery of the items that are there from the start.
#[derive(Debug)]
pub struct Drain {
    pub dirty: bool,
}

/// Takes note of whether the tray could be connected to the bus. Where it could, the tray is to
/// be polled until nothing is left; where it could not, there is nothing to draw.
pub fn init<R, H, N, O>(ss: &mut SharedState<R, H, N, O>, connected: bool) -> (r: Option<Drain>)
    ensures
        connected ==> r == Some(Drain { dirty: false }),
        !connected ==> r is None,
        *final(ss) == (SharedState { tray: old(ss).tray || connected, ..*old(ss) }),
{
    if connected {
        ss.tray = true;
        Some(Drain { dirty: false })
    } else {
        None
    }
}

impl Drain {
    /// Goes on after a poll, where `events` says whether it brought any and `items` whether an
    /// item was discovered, as [`found_items`] tells.
    pub fn polled(&mut self, events: bool, items: bool) -> (r: DrainStep)
        ensures
            r == drain_step(old(self).dirty, events),
            r == (if events {
                DrainStep::PollAgain
            } else {
                DrainStep::Finished { dirty: old(self).dirty }
            }),
            final(self).dirty == (old(self).dirty || items),
    {
        let step: DrainStep = if events {
            DrainStep::PollAgain
        } else {
            DrainStep::Finished { dirty: self.dirty }
        };
        self.dirty = self.dirty || items;
        step
    }
}

/// What comes next after a poll.
pub open spec fn drain_step(dirty: bool, events: bool) -> DrainStep {
    if events {
        DrainStep::PollAgain
    } else {
        DrainStep::Finished { dirty }
    }
}

/// What to do after a poll that the bus asked for.
#[derive(Debug, Clone, Copy, PartialEq, Eq, Structural)]
pub enum ReadyStep {
    /// Draw, and poll again.
    DrawAndPollAgain,
    /// Wait until the bus asks again.
    Keep,
}

/// What to do after a poll that the bus asked for, where `events` says whether it brought any.
pub fn ready(events: bool) -> (r: ReadyStep)
    ensures
        r == (if events {
            ReadyStep::DrawAndPollAgain
        } else {
            ReadyStep::Keep
        }),
{
    if events {
        ReadyStep::DrawAndPollAgain
    } else {
        ReadyStep::Keep
    }
}

/// What the tray reports.
#[derive(Debug)]
pub enum TrayEvent {
    ItemAdded(ItemId),
    ItemChanged(ItemId),
    ItemRemoved(ItemId),
    MenuChanged(ItemId),
    MenuActivationRequested(ItemId),
    HostShutdown,
}

/// An item that was found in the tray's list, with the picture that was found for it.
#[derive(Debug)]
pub struct Resolved {
    pub id: ItemId,
    pub icon: Option<CachedIcon>,
}

/// A report, with the item that it is about where [`TrayEvent::subject`] asks for one.
#[derive(Debug)]
pub struct Update {
    pub event: TrayEvent,
    pub item: Option<Resolved>,
}

impl TrayEvent {
    /// The item whose picture has to be found before the report is taken in.
    pub fn subject(&self) -> (r: Option<&ItemId>)
        ensures
            match *self {
                TrayEvent::ItemAdded(id) | TrayEvent::ItemChanged(id) => r == Some(&id),
                _ => r is None,
            },
    {
        match self {
            TrayEvent::ItemAdded(id) | TrayEvent::ItemChanged(id) => Some(id),
            _ => None,
        }
    }
}

/// What an update says of the picture of `id`: nothing, or that it is this one, or none.
pub open spec fn says(update: Update, id: Seq<char>) -> Option<Option<CachedIcon>> {
    match update.event {
        TrayEvent::ItemAdded(_) | TrayEvent::ItemChanged(_) => match update.item {
            Some(item) => if item.id@ == id {
                Some(item.icon)
            } else {
                None
            },
            None => None,
        },
        TrayEvent::ItemRemoved(gone) => if gone@ == id {
            Some(None)
        } else {
            None
        },
        _ => None,
    }
}

/// The pictures once an update has been taken in.
pub open spec fn after_update(cache: Map<Seq<char>, CachedIcon>, update: Update) -> Map<
    Seq<char>,
    CachedIcon,
> {
    match update.event {
        TrayEvent::ItemAdded(_) | TrayEvent::ItemChanged(_) => match update.item {
            Some(item) => match item.icon {
                Some(icon) => cache.insert(item.id@, icon),
                None => cache.remove(item.id@),
            },
            None => cache,
        },
        TrayEvent::ItemRemoved(id) => cache.remove(id@),
        _ => cache,
    }
}

/// The pictures once updates have been taken in, first to last.
pub open spec fn after_updates(cache: Map<Seq<char>, CachedIcon>, updates: Seq<Update>) -> Map<
    Seq<char>,
    CachedIcon,
>
    decreases updates.len(),
{
    if updates.len() == 0 {
        cache
    } else {
        after_updates(after_update(cache, updates[0]), updates.drop_first())
    }
}

/// The picture of `id`, if there is one.
pub open spec fn picture(cache: Map<Seq<char>, CachedIcon>, id: Seq<char>) -> Option<CachedIcon> {
    if cache.contains_key(id) {
        Some(cache[id])
    } else {
        None
    }
}

/// Takes an update in.
fn take_in(cache: &mut IdMap<CachedIcon>, update: Update)
    requires
        old(cache).wf(),
    ensures
        final(cache).wf(),
        final(cache)@ == after_update(old(cache)@, update),
{
    match update.event {
        TrayEvent::ItemAdded(_) | TrayEvent::ItemChanged(_) => match update.item {
            Some(item) => match item.icon {
                Some(icon) => cache.insert(item.id.0, icon),
                None => cache.remove(item.id.0.as_str()),
            },
            None => {},
        },
        TrayEvent::ItemRemoved(id) => cache.remove(id.0.as_str()),
        TrayEvent::MenuChanged(_) => {},
        TrayEvent::MenuActivationRequested(_) => {},
        TrayEvent::HostShutdown => {},
    }
}

/// The tray's part of the state: whether there is a tray, and its pictures by the ids of their
/// items.
pub struct TrayState {
    pub on: bool,
    pub cache: Map<Seq<char>, CachedIcon>,
}

/// The tray's part of the state.
pub open spec fn tray_of<R, H, N, O>(ss: SharedState<R, H, N, O>) -> TrayState {
    TrayState { on: ss.tray, cache: ss.tray_cache@ }
}

/// What a poll brought, `None` where it failed.
pub open spec fn reported(polled: Option<Vec<Update>>) -> Option<Seq<Update>> {
    match polled {
        Some(updates) => Some(updates@),
        None => None,
    }
}

/// Whether a poll brought anything.
pub open spec fn brings(tray: TrayState, polled: Option<Seq<Update>>) -> bool {
    match polled {
        Some(updates) => tray.on && updates.len() > 0,
        None => false,
    }
}

/// The tray once it has taken in what a poll brought.
pub open spec fn after_poll(tray: TrayState, polled: Option<Seq<Update>>) -> TrayState {
    match polled {
        Some(updates) => if tray.on {
            TrayState { cache: after_updates(tray.cache, updates), ..tray }
        } else {
            tray
        },
        None => tray,
    }
}

/// Takes in what a poll of the tray brought, `None` where it failed. Returns whether there is
/// something new to draw.
pub fn poll<R, H, N, O>(ss: &mut SharedState<R, H, N, O>, polled: Option<Vec<Update>>) -> (r: bool)
    requires
        old(ss).wf(),
    ensures
        final(ss).wf(),
        r == brings(tray_of(*old(ss)), reported(polled)),
        tray_of(*final(ss)) == after_poll(tray_of(*old(ss)), reported(polled)),
        r == (old(ss).tray && polled is Some && polled->Some_0@.len() > 0),
        final(ss).tray_cache@ == (if old(ss).tray && polled is Some {
            after_updates(old(ss).tray_cache@, polled->Some_0@)
        } else {
            old(ss).tray_cache@
        }),
        *final(ss) == (SharedState { tray_cache: final(ss).tray_cache, ..*old(ss) }),
{
    if !ss.tray {
        return false;
    }
    match polled {
        Some(updates) => {
            let any: bool = updates.len() > 0;
            let mut rest: Vec<Update> = updates;
            while rest.len() > 0
                invariant
                    ss.wf(),
                    after_updates(ss.tray_cache@, rest@) == after_updates(
                        old(ss).tray_cache@,
                        updates@,
                    ),
                    *ss == (SharedState { tray_cache: ss.tray_cache, ..*old(ss) }),
                decreases rest@.len(),
            {
                let ghost before = rest@;
                let update: Update = rest.remove(0);
                assert(rest@ =~= before.drop_first());
                take_in(&mut ss.tray_cache, update);
            }
            any
        },
        None => false,
    }
}

/// The last update that says anything of an item's picture decides it, and an item that no
/// update speaks of keeps its picture.
pub proof fn last_update_decides(
    cache: Map<Seq<char>, CachedIcon>,
    updates: Seq<Update>,
    id: Seq<char>,
)
    ensures
        forall|k: int|
            0 <= k < updates.len() && #[trigger] says(updates[k], id) is Some && (forall|j: int|
                k < j < updates.len() ==> #[trigger] says(updates[j], id) is None) ==> picture(
                after_updates(cache, updates),
                id,
            ) == says(updates[k], id).unwrap(),
        (forall|j: int| 0 <= j < updates.len() ==> #[trigger] says(updates[j], id) is None)
            ==> picture(after_updates(cache, updates), id) == picture(cache, id),
    decreases updates.len(),
{
    if updates.len() > 0 {
        let next = after_update(cache, updates[0]);
        let rest = updates.drop_first();
        last_update_decides(next, rest, id);
        assert(picture(next, id) == match says(updates[0], id) {
            Some(said) => said,
            None => picture(cache, id),
        });
        if forall|j: int| 0 <= j < updates.len() ==> #[trigger] says(updates[j], id) is None {
            assert forall|j: int| 0 <= j < rest.len() implies #[trigger] says(rest[j], id) is None by {
                assert(says(updates[j + 1], id) is None);
            }
        }
        assert forall|k: int|
            0 <= k < updates.len() && #[trigger] says(updates[k], id) is Some && (forall|j: int|
                k < j < updates.len() ==> #[trigger] says(updates[j], id) is None) implies picture(
            after_updates(cache, updates),
            id,
        ) == says(updates[k], id).unwrap() by {
            if k > 0 {
                assert(rest[k - 1] == updates[k]);
                assert forall|j: int| k - 1 < j < rest.len() implies #[trigger] says(
                    rest[j],
                    id,
                ) is None by {
                    assert(says(updates[j + 1], id) is None);
                }
                assert(says(rest[k - 1], id) is Some);
            } else {
                assert forall|j: int| 0 <= j < rest.len() implies #[trigger] says(
                    rest[j],
                    id,
                ) is None by {
                    assert(says(updates[j + 1], id) is None);
                }
            }
        }
    }
}

/// Whether updates report an item that was not there before.
pub open spec fn adds_items(updates: Seq<Update>) -> bool {
    exists|i: int| 0 <= i < updates.len() && (#[trigger] updates[i]).event is ItemAdded
}

/// Whether a poll discovered an item.
pub open spec fn discovers(polled: Option<Seq<Update>>) -> bool {
    match polled {
        Some(updates) => adds_items(updates),
        None => false,
    }
}

/// Whether a poll discovered an item.
pub fn found_items(polled: &Option<Vec<Update>>) -> (r: bool)
    ensures
        r == discovers(reported(*polled)),
        r == (*polled is Some && exists|i: int|
            0 <= i < (*polled)->Some_0@.len() && (
            #[trigger] (*polled)->Some_0@[i]).event is ItemAdded),
{
    match polled {
        Some(updates) => {
            for i in 0..updates.len()
                invariant
                    *polled == Some(*updates),
                    forall|j: int| 0 <= j < i ==> !((#[trigger] updates@[j]).event is ItemAdded),
            {
                if let TrayEvent::ItemAdded(_) = &updates[i].event {
                    assert(updates@[i as int].event is ItemAdded);
                    return true;
                }
            }
            false
        },
        None => false,
    }
}

/// How a discovery ended: after how many polls, whether with any item, and with what tray.
pub struct Discovery {
    pub polls: nat,
    pub dirty: bool,
    pub tray: TrayState,
}

/// How the discovery ends when polls bring this, one after the other; `None` where it is not
/// at its end after all of them.
pub open spec fn discovery(
    tray: TrayState,
    dirty: bool,
    polls: Seq<Option<Seq<Update>>>,
) -> Option<Discovery>
    decreases polls.len(),
{
    if polls.len() == 0 {
        None
    } else {
        let next = after_poll(tray, polls[0]);
        match drain_step(dirty, brings(tray, polls[0])) {
            DrainStep::Finished { dirty } => Some(Discovery { polls: 1, dirty, tray: next }),
            DrainStep::PollAgain => match discovery(
                next,
                dirty || discovers(polls[0]),
                polls.drop_first(),
            ) {
                Some(end) => Some(Discovery { polls: end.polls + 1, ..end }),
                None => None,
            },
        }
    }
}

/// The pictures once batches of updates have been taken in, first to last.
pub open spec fn after_batches(
    cache: Map<Seq<char>, CachedIcon>,
    batches: Seq<Seq<Update>>,
) -> Map<Seq<char>, CachedIcon>
    decreases batches.len(),
{
    if batches.len() == 0 {
        cache
    } else {
        after_batches(after_updates(cache, batches[0]), batches.drop_first())
    }
}

/// Batches as polls bring them.
pub open spec fn as_polls(batches: Seq<Seq<Update>>) -> Seq<Option<Seq<Update>>> {
    batches.map_values(|batch: Seq<Update>| Some(batch))
}

/// Whether one of the batches reports an item that was not there before.
pub open spec fn any_adds_items(batches: Seq<Seq<Update>>) -> bool {
    exists|i: int| 0 <= i < batches.len() && #[trigger] adds_items(batches[i])
}

/// The discovery takes in every batch that is waiting: it polls once for each and once more to
/// find that nothing is left, has the tray keep the pictures of all batches in their order,
/// and reports that there is something to draw exactly where some batch added an item. It ends
/// there, whatever comes `later`.
pub proof fn discovery_takes_every_batch(
    tray: TrayState,
    batches: Seq<Seq<Update>>,
    last: Option<Seq<Update>>,
    later: Seq<Option<Seq<Update>>>,
)
    requires
        tray.on,
        forall|i: int| 0 <= i < batches.len() ==> (#[trigger] batches[i]).len() > 0,
        !brings(tray, last),
    ensures
        discovery(tray, false, as_polls(batches) + seq![last] + later) == Some(
            Discovery {
                polls: batches.len() + 1,
                dirty: any_adds_items(batches),
                tray: TrayState { on: true, cache: after_batches(tray.cache, batches) },
            },
        ),
{
    discovery_goes_on(tray, false, batches, last, later);
}

/// A discovery that is under way takes in every batch that is waiting.
proof fn discovery_goes_on(
    tray: TrayState,
    dirty: bool,
    batches: Seq<Seq<Update>>,
    last: Option<Seq<Update>>,
    later: Seq<Option<Seq<Update>>>,
)
    requires
        tray.on,
        forall|i: int| 0 <= i < batches.len() ==> (#[trigger] batches[i]).len() > 0,
        !brings(tray, last),
    ensures
        discovery(tray, dirty, as_polls(batches) + seq![last] + later) == Some(
            Discovery {
                polls: batches.len() + 1,
                dirty: dirty || any_adds_items(batches),
                tray: TrayState { on: true, cache: after_batches(tray.cache, batches) },
            },
        ),
    decreases batches.len(),
{
    let polls = as_polls(batches) + seq![last] + later;
    if batches.len() == 0 {
        assert(polls[0] == last);
    } else {
        let rest = batches.drop_first();
        let next = after_poll(tray, polls[0]);
        assert(polls[0] == Some(batches[0]));
        assert(batches[0].len() > 0);
        assert(polls.drop_first() =~= as_polls(rest) + seq![last] + later);
        assert forall|i: int| 0 <= i < rest.len() implies (#[trigger] rest[i]).len() > 0 by {
            assert(batches[i + 1].len() > 0);
        }
        discovery_goes_on(next, dirty || adds_items(batches[0]), rest, last, later);
        assert(any_adds_items(batches) == (adds_items(batches[0]) || any_adds_items(rest))) by {
            if any_adds_items(batches) {
                let i = choose|i: int| 0 <= i < batches.len() && #[trigger] adds_items(batches[i]);
                if i > 0 {
                    assert(adds_items(rest[i - 1]));
                }
            }
            if any_adds_items(rest) {
                let i = choose|i: int| 0 <= i < rest.len() && #[trigger] adds_items(rest[i]);
                assert(adds_items(batches[i + 1]));
            }
        }
    }
}

/// A button of the pointer.
#[derive(Debug, Clone, Copy, PartialEq, Eq, Structural)]
pub enum PointerBtn {
    Left,
    Right,
    Other,
}

/// What a click on an item does.
#[derive(Debug, Clone, Copy, PartialEq, Eq, Structural)]
pub enum ClickAction {
    /// Nothing; the click is not for the tray.
    Ignored,
    /// The item's menu is fetched and handed to [`show_menu`].
    ShowMenu,
    /// The item is asked to activate itself.
    Activate,
    /// The item is asked to show a menu of its own.
    ContextMenu,
}

/// What a click on an item does, where `None` is an item that the tray does not know.
pub open spec fn click_action(item: Option<Item>, btn: PointerBtn) -> ClickAction {
    let has_menu = match item {
        Some(item) => names_a_menu(item.menu_path@),
        None => false,
    };
    let is_menu = match item {
        Some(item) => item.item_is_menu,
        None => false,
    };
    match btn {
        PointerBtn::Left => if is_menu && has_menu {
            ClickAction::ShowMenu
        } else {
            ClickAction::Activate
        },
        PointerBtn::Right => if has_menu {
            ClickAction::ShowMenu
        } else {
            ClickAction::ContextMenu
        },
        PointerBtn::Other => ClickAction::Ignored,
    }
}

/// Decides what a click on an item does; `item` is the item as the tray knows it, if it does.
pub fn handle_click<R, H, N, O>(
    ss: &SharedState<R, H, N, O>,
    item: Option<&Item>,
    btn: PointerBtn,
) -> (r: ClickAction)
    ensures
        ss.tray ==> r == click_action(
            match item {
                Some(item) => Some(*item),
                None => None,
            },
            btn,
        ),
        !ss.tray ==> r == ClickAction::Ignored,
{
    if !ss.tray {
        return ClickAction::Ignored;
    }
    let has_menu: bool = match item {
        Some(item) => item.has_menu(),
        None => false,
    };
    let is_menu: bool = match item {
        Some(item) => item.item_is_menu,
        None => false,
    };
    match btn {
        PointerBtn::Left => if is_menu && has_menu {
            ClickAction::ShowMenu
        } else {
            ClickAction::Activate
        },
        PointerBtn::Right => if has_menu {
            ClickAction::ShowMenu
        } else {
            ClickAction::ContextMenu
        },
        PointerBtn::Other => ClickAction::Ignored,
    }
}

impl ClickAction {
    /// Whether the click was for the tray.
    pub fn handled(self) -> (r: bool)
        ensures
            r == (self != ClickAction::Ignored),
    {
        match self {
            ClickAction::Ignored => false,
            _ => true,
        }
    }
}

/// A menu is only ever shown for an item that has one, and for a left click only where the item
/// is nothing but a menu; every left and right click does something.
pub proof fn clicks_respect_the_item(item: Option<Item>, btn: PointerBtn)
    ensures
        click_action(item, btn) == ClickAction::ShowMenu ==> item is Some && names_a_menu(
            item->Some_0.menu_path@,
        ),
        click_action(item, PointerBtn::Left) == ClickAction::ShowMenu
            ==> item->Some_0.item_is_menu,
        click_action(item, btn) == ClickAction::Ignored <==> btn == PointerBtn::Other,
{
}

/// How an item's menu is shown.
#[derive(Debug)]
pub enum MenuStart {
    /// Not at all.
    Nothing,
    /// The item is asked to show a menu of its own.
    ContextMenu,
    /// These entries are offered with this command, and the one that is picked is reported to
    /// this bus name and path; see [`DmenuLoop`].
    Open { command: String, bus_name: String, menu_path: String, nodes: Vec<MenuNode> },
}

/// The command that shows menus.
pub open spec fn menu_command(configured: Option<String>) -> Seq<char> {
    match configured {
        Some(command) => command@,
        None => "rofi -dmenu"@,
    }
}

/// Decides how an item's menu is shown. `nodes` are its entries, `None` where they could not be
/// had, and `item` is the item as the tray knows it, if it does.
pub fn show_menu<R, H, N, O>(
    ss: &SharedState<R, H, N, O>,
    nodes: Option<Vec<MenuNode>>,
    item: Option<&Item>,
) -> (r: MenuStart)
    ensures
        match nodes {
            Some(entries) => if !ss.tray {
                r is Nothing
            } else if entries@.len() == 0 {
                r is ContextMenu
            } else {
                match item {
                    Some(item) => match r {
                        MenuStart::Open { command, bus_name, menu_path, nodes: offered } => {
                            &&& command@ == menu_command(ss.config.menu_command)
                            &&& bus_name@ == item.bus_name@
                            &&& menu_path@ == item.menu_path@
                            &&& offered == entries
                        },
                        _ => false,
                    },
                    None => r is Nothing,
                }
            },
            None => r is Nothing,
        },
{
    if !ss.tray {
        return MenuStart::Nothing;
    }
    match nodes {
        None => MenuStart::Nothing,
        Some(nodes) => {
            if nodes.len() == 0 {
                return MenuStart::ContextMenu;
            }
            match item {
                None => MenuStart::Nothing,
                Some(item) => {
                    let command: String = match &ss.config.menu_command {
                        Some(command) => command.clone(),
                        None => "rofi -dmenu".to_owned(),
                    };
                    MenuStart::Open {
                        command,
                        bus_name: item.bus_name.clone(),
                        menu_path: item.menu_path.clone(),
                        nodes,
                    }
                },
            }
        },
    }
}

/// What comes next in the walk through a menu.
pub enum Offer {
    Done,
    Show(Seq<Seq<char>>, Seq<char>),
    Click(i32),
}

/// What to do next in the walk through a menu.
#[derive(Debug)]
pub enum DmenuStep {
    /// There is nothing more to do.
    Done,
    /// Run this program with this input, and hand what was picked to [`DmenuLoop::picked`].
    Show { launch: Launch, input: String },
    /// Report a click on this entry; then there is nothing more to do.
    Click(i32),
}

impl View for DmenuStep {
    type V = Offer;

    open spec fn view(&self) -> Offer {
        match self {
            DmenuStep::Done => Offer::Done,
            DmenuStep::Show { launch, input } => Offer::Show(launch@, input@),
            DmenuStep::Click(id) => Offer::Click(*id),
        }
    }
}

/// What comes next when a level of the menu has these entries: they are offered, if there is
/// anything to offer and a program to do it.
pub open spec fn offer(command: Seq<char>, nodes: Seq<MenuNode>) -> Offer {
    if offers_something(nodes) && words(command).len() > 0 {
        Offer::Show(words(command), menu_text(nodes))
    } else {
        Offer::Done
    }
}

/// Whether an entry leads to further entries.
pub open spec fn leads_on(node: MenuNode) -> bool {
    node.is_submenu && node.children@.len() > 0
}

/// The entries that are offered once this was picked: those below the picked entry, where it
/// leads on, and else the same.
pub open spec fn level_after(nodes: Seq<MenuNode>, label: Option<Seq<char>>) -> Seq<MenuNode> {
    match label {
        None => nodes,
        Some(label) => match first_labelled(nodes, label) {
            Some(node) => if leads_on(node) {
                node.children@
            } else {
                nodes
            },
            None => nodes,
        },
    }
}

/// What comes next when this was picked: an entry that leads on has its entries offered, any
/// other is clicked, and where nothing was picked, or nothing that is offered, that is all.
pub open spec fn offer_after(
    command: Seq<char>,
    nodes: Seq<MenuNode>,
    label: Option<Seq<char>>,
) -> Offer {
    match label {
        None => Offer::Done,
        Some(label) => match first_labelled(nodes, label) {
            Some(node) => if leads_on(node) {
                offer(command, node.children@)
            } else {
                Offer::Click(node.id)
            },
            None => Offer::Done,
        },
    }
}

/// A walk through a menu that is shown level by level.
#[derive(Debug)]
pub struct DmenuLoop {
    command: String,
    nodes: Vec<MenuNode>,
}

impl DmenuLoop {
    /// The command that shows each level.
    pub closed spec fn command(self) -> Seq<char> {
        self.command@
    }

    /// The entries of the level that was offered last.
    pub closed spec fn nodes(self) -> Seq<MenuNode> {
        self.nodes@
    }

    /// Starts at the top of a menu.
    pub fn new(command: String, nodes: Vec<MenuNode>) -> (r: (DmenuLoop, DmenuStep))
        ensures
            r.0.command() == command@,
            r.0.nodes() == nodes@,
            r.1@ == offer(command@, nodes@),
    {
        let walk = DmenuLoop { command, nodes };
        let step: DmenuStep = walk.show();
        (walk, step)
    }

    /// The entries of the level that was offered last.
    pub fn offered(&self) -> (r: &Vec<MenuNode>)
        ensures
            r@ == self.nodes(),
    {
        &self.nodes
    }

    /// Offers the entries of the level.
    fn show(&self) -> (r: DmenuStep)
        ensures
            r@ == offer(self.command(), self.nodes()),
    {
        if !has_entries(&self.nodes) {
            return DmenuStep::Done;
        }
        match parse_command(self.command.as_str()) {
            Some(launch) => DmenuStep::Show { launch, input: menu_input(&self.nodes) },
            None => DmenuStep::Done,
        }
    }

    /// Goes on with what was picked.
    pub fn picked(&mut self, label: Option<String>) -> (r: DmenuStep)
        ensures
            r@ == offer_after(old(self).command(), old(self).nodes(), text_of(label)),
            final(self).command() == old(self).command(),
            final(self).nodes() == level_after(old(self).nodes(), text_of(label)),
    {
        match label {
            None => DmenuStep::Done,
            Some(label) => match find_label(&self.nodes, &label) {
                None => DmenuStep::Done,
                Some(i) => {
                    let node: &MenuNode = &self.nodes[i];
                    if node.is_submenu && node.children.len() > 0 {
                        let node: MenuNode = self.nodes.remove(i);
                        self.nodes = node.children;
                        self.show()
                    } else {
                        DmenuStep::Click(node.id)
                    }
                },
            },
        }
    }

    /// How the walk came out, where `told` is how reporting its click went, if it had one.
    pub fn finish<E>(self, told: Option<Result<(), E>>) -> (r: Result<(), E>)
        ensures
            r == walk_result(told),
    {
        match told {
            Some(result) => result,
            None => Ok(()),
        }
    }
}

/// The walk comes to an end: going into a submenu leaves fewer levels than there were.
pub proof fn the_walk_goes_down(nodes: Seq<MenuNode>, label: Option<Seq<char>>, command: Seq<char>)
    ensures
        offer_after(command, nodes, label) is Show ==> depth(level_after(nodes, label)) < depth(
            nodes,
        ),
{
    if let Some(text) = label {
        first_labelled_is_first(nodes, text);
        if first_labelled(nodes, text) is Some {
            let i = choose|i: int|
                0 <= i < nodes.len() && first_labelled(nodes, text) == Some(nodes[i])
                    && #[trigger] answers_to(nodes[i], text) && (forall|j: int|
                    0 <= j < i ==> !#[trigger] answers_to(nodes[j], text));
            submenu_is_less_deep(nodes, i);
        }
    }
}

/// Whether each of these picks, one after the other, has a further level offered.
pub open spec fn keeps_offering(
    command: Seq<char>,
    nodes: Seq<MenuNode>,
    picks: Seq<Option<Seq<char>>>,
) -> bool
    decreases picks.len(),
{
    picks.len() > 0 ==> {
        &&& offer_after(command, nodes, picks[0]) is Show
        &&& keeps_offering(command, level_after(nodes, picks[0]), picks.drop_first())
    }
}

/// Whatever is picked, a menu is offered no more often than it has levels.
pub proof fn the_walk_ends(
    command: Seq<char>,
    nodes: Seq<MenuNode>,
    picks: Seq<Option<Seq<char>>>,
)
    requires
        nodes.len() > 0,
        keeps_offering(command, nodes, picks),
    ensures
        picks.len() < depth(nodes),
    decreases picks.len(),
{
    if picks.len() > 0 {
        the_walk_goes_down(nodes, picks[0], command);
        the_walk_ends(command, level_after(nodes, picks[0]), picks.drop_first());
    }
}

/// The walk goes on only into the entries below a picked entry; cancelling, picking what is not
/// offered and picking a leaf end it.
pub proof fn what_ends_the_walk(
    command: Seq<char>,
    nodes: Seq<MenuNode>,
    label: Option<Seq<char>>,
)
    ensures
        label is None ==> offer_after(command, nodes, label) is Done,
        label is Some && first_labelled(nodes, label->Some_0) is None ==> offer_after(
            command,
            nodes,
            label,
        ) is Done,
        label is Some && first_labelled(nodes, label->Some_0) is Some && !leads_on(
            first_labelled(nodes, label->Some_0)->Some_0,
        ) ==> offer_after(command, nodes, label) == Offer::Click(
            first_labelled(nodes, label->Some_0)->Some_0.id,
        ),
{
}

/// An entry is clicked only when it is offered, was picked by its label and does not lead on.
pub proof fn only_offered_leaves_are_clicked(
    command: Seq<char>,
    nodes: Seq<MenuNode>,
    label: Option<Seq<char>>,
)
    ensures
        offer_after(command, nodes, label) matches Offer::Click(id) ==> exists|i: int|
            0 <= i < nodes.len() && #[trigger] answers_to(nodes[i], label->Some_0) && !leads_on(
                nodes[i],
            ) && nodes[i].id == id,
{
    if let Some(text) = label {
        first_labelled_is_first(nodes, text);
    }
}

/// The entries that are offered after these picks.
pub open spec fn level_at(nodes: Seq<MenuNode>, picks: Seq<Option<Seq<char>>>) -> Seq<MenuNode>
    decreases picks.len(),
{
    if picks.len() == 0 {
        nodes
    } else {
        level_at(level_after(nodes, picks[0]), picks.drop_first())
    }
}

/// The steps of a walk from `step` on, when these are the picks, as far as they are asked for.
pub open spec fn steps_from(
    command: Seq<char>,
    nodes: Seq<MenuNode>,
    step: Offer,
    picks: Seq<Option<Seq<char>>>,
) -> Seq<Offer>
    decreases picks.len(),
{
    if step is Show && picks.len() > 0 {
        seq![step] + steps_from(
            command,
            level_after(nodes, picks[0]),
            offer_after(command, nodes, picks[0]),
            picks.drop_first(),
        )
    } else {
        seq![step]
    }
}

/// The steps of a walk through a menu, when these are the picks, as far as they are asked for.
pub open spec fn walk_steps(
    command: Seq<char>,
    nodes: Seq<MenuNode>,
    picks: Seq<Option<Seq<char>>>,
) -> Seq<Offer> {
    steps_from(command, nodes, offer(command, nodes), picks)
}

/// All steps of a walk but the last offer entries, and the last is what the last pick among the
/// entries of its level leads to.
proof fn how_steps_end(
    command: Seq<char>,
    nodes: Seq<MenuNode>,
    step: Offer,
    picks: Seq<Option<Seq<char>>>,
)
    ensures
        ({
            let steps = steps_from(command, nodes, step, picks);
            let n = steps.len() - 1;
            &&& 0 <= n <= picks.len()
            &&& forall|i: int| 0 <= i < n ==> (#[trigger] steps[i]) is Show
            &&& n == 0 ==> steps.last() == step
            &&& n > 0 ==> steps.last() == offer_after(
                command,
                level_at(nodes, picks.take(n - 1)),
                picks[n - 1],
            )
        }),
    decreases picks.len(),
{
    if step is Show && picks.len() > 0 {
        let below = level_after(nodes, picks[0]);
        let next = offer_after(command, nodes, picks[0]);
        let steps = steps_from(command, nodes, step, picks);
        let rest = steps_from(command, below, next, picks.drop_first());
        how_steps_end(command, below, next, picks.drop_first());
        let m = rest.len() - 1;
        assert(steps.last() == rest.last());
        assert forall|i: int| 0 <= i < m + 1 implies (#[trigger] steps[i]) is Show by {
            if i > 0 {
                assert(steps[i] == rest[i - 1]);
            }
        }
        if m > 0 {
            assert(picks.take(m).drop_first() =~= picks.drop_first().take(m - 1));
            assert(picks.take(m)[0] == picks[0]);
        }
    }
}

/// In a whole walk an entry is clicked at most once, and as the last step: the first entry of the
/// last level that is offered under the picked label, where it does not lead on. Where the last
/// pick was cancelled, or names nothing that is offered, the walk ends without a click. The walk
/// fails exactly where reporting its click fails, with that error.
pub proof fn a_click_comes_last<E>(
    command: Seq<char>,
    nodes: Seq<MenuNode>,
    picks: Seq<Option<Seq<char>>>,
    told: Option<Result<(), E>>,
)
    requires
        told is Some <==> walk_steps(command, nodes, picks).last() is Click,
    ensures
        ({
            let steps = walk_steps(command, nodes, picks);
            let n = steps.len() - 1;
            let level = level_at(nodes, picks.take(n - 1));
            let label = picks[n - 1];
            &&& 0 <= n <= picks.len()
            &&& forall|i: int| 0 <= i < n ==> (#[trigger] steps[i]) is Show
            &&& steps.last() matches Offer::Click(id) ==> {
                &&& n > 0
                &&& label is Some
                &&& first_labelled(level, label->Some_0) is Some
                &&& !leads_on(first_labelled(level, label->Some_0)->Some_0)
                &&& id == first_labelled(level, label->Some_0)->Some_0.id
            }
            &&& n > 0 && (label is None || first_labelled(level, label->Some_0) is None)
                ==> steps.last() is Done && walk_result(told) == Ok::<(), E>(())
            &&& walk_result(told) is Err <==> steps.last() is Click && told->Some_0 is Err
            &&& walk_result(told) is Err ==> walk_result(told) == told->Some_0
        }),
{
    how_steps_end(command, nodes, offer(command, nodes), picks);
}

/// The least side of an icon's place, in logical pixels.
pub const MIN_SLOT: u32 = 16;

/// What the bar is higher than an icon's place, in logical pixels.
pub const SLOT_MARGIN: u32 = 4;

/// The side of an icon's place in a bar of this height.
pub fn slot_size(full_height: u32) -> (r: u32)
    ensures
        r == (if full_height - SLOT_MARGIN > MIN_SLOT {
            full_height - SLOT_MARGIN
        } else {
            MIN_SLOT as int
        }),
{
    if full_height > MIN_SLOT + SLOT_MARGIN {
        full_height - SLOT_MARGIN
    } else {
        MIN_SLOT
    }
}

/// A picture as it is drawn.
pub struct Drawn {
    pub id: Seq<char>,
    pub image: Image,
    pub width: int,
    pub height: int,
    pub stride: int,
}

/// A picture to draw, in ARGB32 with premultiplied alpha, under the id of its item.
#[derive(Debug)]
pub struct Surface {
    pub id: String,
    pub icon: CachedIcon,
    /// The size and the bytes in a row, as a drawing surface takes them.
    pub width: i32,
    pub height: i32,
    pub stride: i32,
}

impl View for Surface {
    type V = Drawn;

    open spec fn view(&self) -> Drawn {
        Drawn {
            id: self.id@,
            image: self.icon@,
            width: self.width as int,
            height: self.height as int,
            stride: self.stride as int,
        }
    }
}

/// A kept picture as it is drawn.
pub open spec fn drawn(id: Seq<char>, icon: Image) -> Drawn {
    Drawn {
        id,
        image: Image { data: premultiplied(icon.data), ..icon },
        width: as_signed(icon.width as int),
        height: as_signed(icon.height as int),
        stride: as_signed(icon.width * 4),
    }
}

/// What is drawn, in order.
pub open spec fn drawing(cache: IdMap<CachedIcon>) -> Seq<Drawn> {
    cache.ids().map_values(|id: Seq<char>| drawn(id, cache@[id]@))
}

/// The bytes in a row of every kept picture can be counted in a `u32`.
pub open spec fn drawable(cache: Map<Seq<char>, CachedIcon>) -> bool {
    forall|id: Seq<char>| #[trigger] cache.contains_key(id) ==> cache[id].w * 4 <= u32::MAX
}

/// Whether the kept pictures can be drawn.
pub fn is_drawable<R, H, N, O>(ss: &SharedState<R, H, N, O>) -> (r: bool)
    requires
        ss.wf(),
    ensures
        r == drawable(ss.tray_cache@),
{
    let n: usize = ss.tray_cache.len();
    for i in 0..n
        invariant
            ss.wf(),
            n == ss.tray_cache.ids().len(),
            forall|j: int|
                0 <= j < i ==> ss.tray_cache@[#[trigger] ss.tray_cache.ids()[j]].w * 4 <= u32::MAX,
    {
        let (id, icon) = ss.tray_cache.entry(i);
        if icon.w > u32::MAX / 4 {
            assert(ss.tray_cache@.contains_key(id@));
            return false;
        }
    }
    proof {
        assert forall|id: Seq<char>| #[trigger]
            ss.tray_cache@.contains_key(id) implies ss.tray_cache@[id].w * 4 <= u32::MAX by {
            ss.tray_cache.ids_are_the_domain(id);
            let j = ss.tray_cache.ids().index_of(id);
            assert(ss.tray_cache.ids()[j] == id);
        }
    }
    true
}

/// The pictures to draw, in the order of their ids. Each takes the next place, whether or not it
/// can be drawn. Where there are none, nothing is drawn and the buttons stay as they are.
pub fn render<R, H, N, O>(ss: &SharedState<R, H, N, O>) -> (r: Option<Vec<Surface>>)
    requires
        ss.wf(),
        drawable(ss.tray_cache@),
    ensures
        match r {
            Some(list) => {
                &&& list@.len() > 0
                &&& list@.map_values(|s: Surface| s@) == drawing(ss.tray_cache)
                &&& list@.len() == ss.tray_cache.ids().len()
                &&& forall|i: int|
                    0 <= i < list@.len() ==> {
                        let icon = ss.tray_cache@[ss.tray_cache.ids()[i]];
                        &&& (#[trigger] list@[i]).id@ == ss.tray_cache.ids()[i]
                        &&& list@[i].icon.w == icon.w
                        &&& list@[i].icon.h == icon.h
                        &&& list@[i].icon.data@ == premultiplied(icon.data@)
                    }
            },
            None => ss.tray_cache.ids().len() == 0,
        },
{
    let n: usize = ss.tray_cache.len();
    if n == 0 {
        return None;
    }
    let mut list: Vec<Surface> = Vec::new();
    for i in 0..n
        invariant
            ss.wf(),
            drawable(ss.tray_cache@),
            n == ss.tray_cache.ids().len(),
            list@.map_values(|s: Surface| s@) == drawing(ss.tray_cache).take(i as int),
    {
        let (id, icon) = ss.tray_cache.entry(i);
        let ghost before = list@.map_values(|s: Surface| s@);
        list.push(
            Surface {
                id: id.clone(),
                icon: CachedIcon { data: premultiply(&icon.data), w: icon.w, h: icon.h },
                width: signed(icon.w),
                height: signed(icon.h),
                stride: stride(icon.w),
            },
        );
        proof {
            assert(list@.last()@ == drawing(ss.tray_cache)[i as int]);
            assert(list@.map_values(|s: Surface| s@) =~= before.push(list@.last()@));
            assert(drawing(ss.tray_cache).take(i + 1) =~= before.push(
                drawing(ss.tray_cache)[i as int],
            ));
        }
    }
    assert(list@.len() == list@.map_values(|s: Surface| s@).len());
    assert(drawing(ss.tray_cache).take(n as int) =~= drawing(ss.tray_cache));
    assert forall|i: int| 0 <= i < list@.len() implies (#[trigger] list@[i])@ == drawing(
        ss.tray_cache,
    )[i] by {
        assert(list@.map_values(|s: Surface| s@)[i] == list@[i]@);
    }
    Some(list)
}

/// Every kept picture is drawn once, and nothing else is, in the order of the ids.
pub proof fn drawing_shows_the_cache(cache: IdMap<CachedIcon>)
    requires
        cache.wf(),
    ensures
        forall|i: int, j: int|
            0 <= i < j < drawing(cache).len() ==> text_less(
                (#[trigger] drawing(cache)[i]).id,
                (#[trigger] drawing(cache)[j]).id,
            ),
        forall|i: int|
            0 <= i < drawing(cache).len() ==> cache@.contains_key(
                (#[trigger] drawing(cache)[i]).id,
            ) && drawing(cache)[i] == drawn(drawing(cache)[i].id, cache@[drawing(cache)[i].id]@),
        forall|id: Seq<char>| #[trigger]
            cache@.contains_key(id) ==> exists|i: int|
                0 <= i < drawing(cache).len() && (#[trigger] drawing(cache)[i]).id == id,
{
    assert forall|i: int| 0 <= i < drawing(cache).len() implies cache@.contains_key(
        (#[trigger] drawing(cache)[i]).id,
    ) by {
        cache.ids_are_the_domain(cache.ids()[i]);
        assert(cache.ids().contains(cache.ids()[i]));
    }
    assert forall|id: Seq<char>| #[trigger] cache@.contains_key(id) implies exists|i: int|
        0 <= i < drawing(cache).len() && (#[trigger] drawing(cache)[i]).id == id by {
        cache.ids_are_the_domain(id);
        let i = cache.ids().index_of(id);
        assert(drawing(cache)[i].id == id);
    }
}

/// What is drawn depends on the kept pictures alone, not on the order in which they came.
pub proof fn drawing_depends_on_contents(a: IdMap<CachedIcon>, b: IdMap<CachedIcon>)
    requires
        a.wf(),
        b.wf(),
        a@ == b@,
    ensures
        drawing(a) == drawing(b),
{
    a.same_contents_same_ids(b);
    assert(drawing(a) =~= drawing(b));
}

/// The place of a button, counted from the first, and the id of its item.
#[derive(Debug)]
pub struct TrayButton {
    pub slot: usize,
    pub id: String,
}

/// The places that get a button, and the ids of their items: those whose picture was drawn.
pub open spec fn buttons_of(ids: Seq<Seq<char>>, done: Seq<bool>) -> Seq<(int, Seq<char>)>
    decreases ids.len(),
{
    if ids.len() == 0 {
        seq![]
    } else {
        let n = ids.len() - 1;
        let before = buttons_of(ids.drop_last(), done);
        if done[n] {
            before.push((n, ids[n]))
        } else {
            before
        }
    }
}

/// The buttons of the pictures that were drawn, where `done` says of each whether it was.
pub fn buttons(list: &Vec<Surface>, done: &Vec<bool>) -> (r: Vec<TrayButton>)
    requires
        done@.len() == list@.len(),
    ensures
        r@.map_values(|b: TrayButton| (b.slot as int, b.id@)) == buttons_of(
            list@.map_values(|s: Surface| s.id@),
            done@,
        ),
{
    let mut r: Vec<TrayButton> = Vec::new();
    let ghost ids = list@.map_values(|s: Surface| s.id@);
    assert(r@.map_values(|b: TrayButton| (b.slot as int, b.id@)) =~= buttons_of(
        ids.take(0),
        done@,
    ));
    for i in 0..list.len()
        invariant
            done@.len() == list@.len(),
            ids == list@.map_values(|s: Surface| s.id@),
            r@.map_values(|b: TrayButton| (b.slot as int, b.id@)) == buttons_of(
                ids.take(i as int),
                done@,
            ),
    {
        let ghost before = r@.map_values(|b: TrayButton| (b.slot as int, b.id@));
        assert(ids.take(i + 1).drop_last() =~= ids.take(i as int));
        if done[i] {
            r.push(TrayButton { slot: i, id: list[i].id.clone() });
            assert(r@.map_values(|b: TrayButton| (b.slot as int, b.id@)) =~= before.push(
                (i as int, ids[i as int]),
            ));
        }
    }
    assert(ids.take(list@.len() as int) =~= ids);
    r
}

/// Every button is at the place of an item, and has that item's id.
pub proof fn buttons_are_in_place(ids: Seq<Seq<char>>, done: Seq<bool>)
    ensures
        forall|k: int|
            0 <= k < buttons_of(ids, done).len() ==> {
                let (slot, id) = #[trigger] buttons_of(ids, done)[k];
                0 <= slot < ids.len() && id == ids[slot]
            },
    decreases ids.len(),
{
    if ids.len() > 0 {
        let front = ids.drop_last();
        let before = buttons_of(front, done);
        buttons_are_in_place(front, done);
        assert forall|k: int| 0 <= k < buttons_of(ids, done).len() implies {
            let (slot, id) = #[trigger] buttons_of(ids, done)[k];
            0 <= slot < ids.len() && id == ids[slot]
        } by {
            if k < before.len() {
                assert(buttons_of(ids, done)[k] == before[k]);
            }
        }
    }
}

/// A picture that cannot be drawn gets no button, but keeps its place: the buttons of the
/// others are where they would be without the failure.
pub proof fn failures_keep_their_place(ids: Seq<Seq<char>>, done: Seq<bool>, i: int)
    requires
        done.len() >= ids.len(),
        0 <= i < ids.len(),
    ensures
        buttons_of(ids, done).contains((i, ids[i])) <==> done[i],
    decreases ids.len(),
{
    let n = ids.len() - 1;
    let front = ids.drop_last();
    let before = buttons_of(front, done);
    let all = buttons_of(ids, done);
    buttons_are_in_place(front, done);
    if i < n {
        failures_keep_their_place(front, done, i);
        if before.contains((i, ids[i])) {
            let k = before.index_of((i, ids[i]));
            assert(all[k] == (i, ids[i]));
        }
        if all.contains((i, ids[i])) {
            let k = all.index_of((i, ids[i]));
            assert(all[k] == (i, ids[i]));
            assert(k < before.len());
            assert(before[k] == (i, ids[i]));
        }
    } else {
        if done[n] {
            assert(all.last() == (n, ids[n]));
        }
    }
}

/// The buttons come in the order of their places, so no place has two; and where the ids are in
/// order, as those of what is drawn are, so are the buttons' ids, and none occurs twice.
pub proof fn buttons_ascend(ids: Seq<Seq<char>>, done: Seq<bool>)
    ensures
        forall|i: int, j: int|
            0 <= i < j < buttons_of(ids, done).len() ==> (#[trigger] buttons_of(ids, done)[i]).0
                < (#[trigger] buttons_of(ids, done)[j]).0,
        ascending(ids) ==> forall|i: int, j: int|
            0 <= i < j < buttons_of(ids, done).len() ==> text_less(
                (#[trigger] buttons_of(ids, done)[i]).1,
                (#[trigger] buttons_of(ids, done)[j]).1,
            ) && buttons_of(ids, done)[i].1 != buttons_of(ids, done)[j].1,
    decreases ids.len(),
{
    let all = buttons_of(ids, done);
    if ids.len() > 0 {
        let front = ids.drop_last();
        let before = buttons_of(front, done);
        buttons_ascend(front, done);
        buttons_are_in_place(front, done);
        assert forall|i: int, j: int| 0 <= i < j < all.len() implies (#[trigger] all[i]).0 < (
        #[trigger] all[j]).0 by {
            assert(all[i] == before[i]);
            if j < before.len() {
                assert(all[j] == before[j]);
            }
        }
    }
    buttons_are_in_place(ids, done);
    if ascending(ids) {
        assert forall|i: int, j: int| 0 <= i < j < all.len() implies text_less(
            (#[trigger] all[i]).1,
            (#[trigger] all[j]).1,
        ) && all[i].1 != all[j].1 by {
            assert(text_less(ids[all[i].0], ids[all[j].0]));
            text_less_is_an_order(all[i].1, all[i].1, all[i].1);
        }
    }
}

/// A poll that brings reports is followed by another, and one that brings none ends the
/// discovery with what was known before it.
pub proof fn polls_go_on_while_they_bring_something(dirty: bool)
    ensures
        drain_step(dirty, true) == DrainStep::PollAgain,
        drain_step(dirty, false) == (DrainStep::Finished { dirty }),
{
}

/// An update on an item gives that item the picture that was found for it, or takes its picture
/// away where none was found or the item is gone; every other item keeps what it had. An update
/// that is on no item, or on one that was not found, changes nothing.
pub proof fn an_update_touches_its_item_alone(
    cache: Map<Seq<char>, CachedIcon>,
    update: Update,
    id: Seq<char>,
)
    ensures
        (update.event is ItemAdded || update.event is ItemChanged) && update.item is Some ==> {
            let item = update.item->Some_0;
            &&& item.id.0@ == id && item.icon is Some ==> after_update(cache, update).contains_key(
                id,
            ) && after_update(cache, update)[id] == item.icon->Some_0
            &&& item.id.0@ == id && item.icon is None ==> !after_update(
                cache,
                update,
            ).contains_key(id)
            &&& item.id.0@ != id ==> after_update(cache, update).contains_key(id)
                == cache.contains_key(id)
            &&& item.id.0@ != id && cache.contains_key(id) ==> after_update(cache, update)[id]
                == cache[id]
        },
        update.event is ItemRemoved ==> {
            let gone = update.event->ItemRemoved_0.0@;
            &&& gone == id ==> !after_update(cache, update).contains_key(id)
            &&& gone != id ==> after_update(cache, update).contains_key(id) == cache.contains_key(
                id,
            )
            &&& gone != id && cache.contains_key(id) ==> after_update(cache, update)[id]
                == cache[id]
        },
        (update.event is ItemAdded || update.event is ItemChanged) && update.item is None
            ==> after_update(cache, update) == cache,
        update.event is MenuChanged || update.event is MenuActivationRequested
            || update.event is HostShutdown ==> after_update(cache, update) == cache,
{
}

/// What an update says of an item is what taking it in makes of that item's picture.
pub proof fn updates_do_what_they_say(
    cache: Map<Seq<char>, CachedIcon>,
    update: Update,
    id: Seq<char>,
)
    ensures
        picture(cache, id) is Some <==> cache.contains_key(id),
        cache.contains_key(id) ==> picture(cache, id) == Some(cache[id]),
        picture(after_update(cache, update), id) == match says(update, id) {
            Some(said) => said,
            None => picture(cache, id),
        },
{
}

/// Updates are taken in one after the other: those of two batches together leave what those of
/// the second leave after the first.
pub proof fn updates_are_taken_in_turn(
    cache: Map<Seq<char>, CachedIcon>,
    a: Seq<Update>,
    b: Seq<Update>,
    update: Update,
)
    ensures
        after_updates(cache, a + b) == after_updates(after_updates(cache, a), b),
        after_updates(cache, seq![update]) == after_update(cache, update),
        after_updates(cache, Seq::<Update>::empty()) == cache,
    decreases a.len(),
{
    assert(seq![update].drop_first() =~= Seq::<Update>::empty());
    assert(after_updates(after_update(cache, update), Seq::<Update>::empty()) == after_update(
        cache,
        update,
    ));
    if a.len() == 0 {
        assert(a + b =~= b);
    } else {
        assert((a + b).drop_first() =~= a.drop_first() + b);
        assert((a + b)[0] == a[0]);
        updates_are_taken_in_turn(after_update(cache, a[0]), a.drop_first(), b, update);
    }
}

/// A poll counts only where there is a tray and the poll did not fail: it then brings something
/// if it has any update, and the pictures are what its updates leave. Else nothing changes. The
/// tray itself stays in any case.
pub proof fn only_a_tray_takes_polls_in(tray: TrayState, updates: Seq<Update>)
    ensures
        !tray.on ==> !brings(tray, Some(updates)) && after_poll(tray, Some(updates)) == tray,
        !brings(tray, None) && after_poll(tray, None) == tray,
        tray.on ==> {
            &&& brings(tray, Some(updates)) <==> updates.len() > 0
            &&& after_poll(tray, Some(updates)).on
            &&& after_poll(tray, Some(updates)).cache == after_updates(tray.cache, updates)
        },
{
}

/// A poll discovers an item exactly where one of its reports is that an item was added.
pub proof fn items_are_discovered_as_they_are_added(updates: Seq<Update>, a: Seq<Update>)
    ensures
        discovers(Some(updates)) <==> exists|i: int|
            0 <= i < updates.len() && (#[trigger] updates[i]).event is ItemAdded,
        !discovers(None),
        discovers(Some(updates + a)) <==> discovers(Some(updates)) || discovers(Some(a)),
{
    let both = updates + a;
    if adds_items(both) {
        let i = choose|i: int| 0 <= i < both.len() && (#[trigger] both[i]).event is ItemAdded;
        if i < updates.len() {
            assert(updates[i].event is ItemAdded);
        } else {
            assert(a[i - updates.len()].event is ItemAdded);
        }
    }
    if adds_items(updates) {
        let i = choose|i: int| 0 <= i < updates.len() && (#[trigger] updates[i]).event is ItemAdded;
        assert(both[i].event is ItemAdded);
    }
    if adds_items(a) {
        let i = choose|i: int| 0 <= i < a.len() && (#[trigger] a[i]).event is ItemAdded;
        assert(both[updates.len() + i].event is ItemAdded);
    }
}

/// The tray's part of the state is its flag and its pictures, and what a poll brought is its
/// updates.
pub proof fn states_and_polls_say_what_they_hold<R, H, N, O>(
    ss: SharedState<R, H, N, O>,
    updates: Vec<Update>,
)
    ensures
        tray_of(ss).on == ss.tray,
        tray_of(ss).cache == ss.tray_cache@,
        reported(Some(updates)) == Some(updates@),
        reported(None) is None,
{
}

/// A right click on an item that has a menu shows it, and so does a left click where the item is
/// nothing but a menu, whatever else is true of the item. Any other left click activates the
/// item, and any other right click asks it for a menu of its own, known or not. No other button
/// does anything. A menu path that is empty or the root is no menu.
pub proof fn what_clicks_do(item: Option<Item>)
    ensures
        item matches Some(item) ==> {
            let has_menu = item.menu_path@.len() > 1 || (item.menu_path@.len() == 1
                && item.menu_path@[0] != '/');
            &&& has_menu ==> click_action(Some(item), PointerBtn::Right) == ClickAction::ShowMenu
            &&& !has_menu ==> click_action(Some(item), PointerBtn::Right)
                == ClickAction::ContextMenu
            &&& has_menu && item.item_is_menu ==> click_action(Some(item), PointerBtn::Left)
                == ClickAction::ShowMenu
            &&& !(has_menu && item.item_is_menu) ==> click_action(Some(item), PointerBtn::Left)
                == ClickAction::Activate
        },
        click_action(None, PointerBtn::Right) == ClickAction::ContextMenu,
        click_action(None, PointerBtn::Left) == ClickAction::Activate,
        click_action(item, PointerBtn::Other) == ClickAction::Ignored,
{
    if let Some(item) = item {
        only_nothing_and_the_root_name_no_menu(item.menu_path@);
    }
}

/// What a click does depends on the menu path and on whether the item is nothing but a menu,
/// and on nothing else of the item.
pub proof fn clicks_look_at_the_menu_alone(a: Item, b: Item, btn: PointerBtn)
    requires
        a.menu_path@ == b.menu_path@,
        a.item_is_menu == b.item_is_menu,
    ensures
        click_action(Some(a), btn) == click_action(Some(b), btn),
{
}

/// A command that is configured is used as it is, even where it is empty, and only where none is
/// configured is there another.
pub proof fn a_configured_command_is_used(command: String)
    ensures
        menu_command(Some(command)) == command@,
        menu_command(None) == "rofi -dmenu"@,
{
}

/// A level is shown exactly where an entry of it is visible and has a label, and the command has
/// a character that is not white space. The program that shows it is made of all words of the
/// command, and gets the whole text of the level. Where it is not shown, there is nothing to do.
pub proof fn a_level_with_entries_is_shown(command: Seq<char>, nodes: Seq<MenuNode>)
    ensures
        (exists|i: int|
            0 <= i < nodes.len() && (#[trigger] nodes[i]).visible && nodes[i].label@.len() > 0) && (
        exists|k: int| 0 <= k < command.len() && !white_space(#[trigger] command[k])) ==> offer(
            command,
            nodes,
        ) == Offer::Show(words(command), menu_text(nodes)),
        !((exists|i: int|
            0 <= i < nodes.len() && (#[trigger] nodes[i]).visible && nodes[i].label@.len() > 0) && (
        exists|k: int| 0 <= k < command.len() && !white_space(#[trigger] command[k]))) ==> offer(
            command,
            nodes,
        ) == Offer::Done,
        offers_something(nodes) && words(command).len() >= 1 ==> offer(command, nodes)
            == Offer::Show(words(command), menu_text(nodes)),
{
    what_is_offered(nodes);
    words_are_of_solid_characters(command);
}

/// Picking the label of a visible entry, the first that has it, goes into the entry where it is
/// a submenu with entries, and those are then the level; any other entry is clicked, by its id.
/// Cancelling, and picking what no visible entry is called, ends the walk. The level stays unless
/// the walk goes into a submenu.
pub proof fn what_a_pick_leads_to(
    command: Seq<char>,
    nodes: Seq<MenuNode>,
    label: Seq<char>,
    i: int,
)
    ensures
        0 <= i < nodes.len() && label.len() > 0 && nodes[i].visible && nodes[i].label@ == label && (
        forall|j: int| 0 <= j < i ==> !(#[trigger] nodes[j]).visible || nodes[j].label@ != label)
            ==> {
            &&& nodes[i].is_submenu && nodes[i].children@.len() > 0 ==> {
                &&& offer_after(command, nodes, Some(label)) == offer(command, nodes[i].children@)
                &&& level_after(nodes, Some(label)) == nodes[i].children@
            }
            &&& !nodes[i].is_submenu || nodes[i].children@.len() == 0 ==> {
                &&& offer_after(command, nodes, Some(label)) == Offer::Click(nodes[i].id)
                &&& level_after(nodes, Some(label)) == nodes
            }
        },
        label.len() == 0 || (forall|j: int|
            0 <= j < nodes.len() ==> !(#[trigger] nodes[j]).visible || nodes[j].label@ != label)
            ==> {
            &&& offer_after(command, nodes, Some(label)) == Offer::Done
            &&& level_after(nodes, Some(label)) == nodes
        },
        offer_after(command, nodes, None) == Offer::Done,
        level_after(nodes, None) == nodes,
{
    a_label_stands_for_the_first_visible_entry(nodes, label, i);
}

/// A step of a walk says what it holds.
pub proof fn walk_steps_say_what_they_hold(launch: Launch, input: String, id: i32)
    ensures
        (DmenuStep::Show { launch, input })@ == Offer::Show(launch@, input@),
        DmenuStep::Click(id)@ == Offer::Click(id),
        DmenuStep::Done@ == Offer::Done,
{
}

/// A kept picture is drawn under its item's id and in its own size, whatever that size is. Of
/// every whole pixel the alpha is kept, and each colour is the largest byte that is no more than
/// the colour times the alpha over 255; other bytes are kept. The sizes and the bytes in a row are
/// handed on as `i32`, the same up to whole turns of 32 bits.
pub proof fn pictures_are_drawn_as_they_are_kept(
    cache: IdMap<CachedIcon>,
    i: int,
    pixel: int,
    colour: int,
    byte: int,
)
    requires
        0 <= i < cache.ids().len(),
        cache@[cache.ids()[i]].w * 4 <= u32::MAX,
    ensures
        drawing(cache).len() == cache.ids().len(),
        ({
            let icon = cache@[cache.ids()[i]];
            let drawn = drawing(cache)[i];
            &&& drawn.id == cache.ids()[i]
            &&& drawn.image.width == icon.w
            &&& drawn.image.height == icon.h
            &&& drawn.image.data.len() == icon.data@.len()
            &&& 0 <= pixel && 0 <= colour < 3 && 4 * pixel + 3 < icon.data@.len() ==> {
                &&& drawn.image.data[4 * pixel + 3] == icon.data@[4 * pixel + 3]
                &&& 255 * drawn.image.data[4 * pixel + colour] <= icon.data@[4 * pixel + colour]
                    * icon.data@[4 * pixel + 3] < 255 * (drawn.image.data[4 * pixel + colour] + 1)
            }
            &&& 4 * (icon.data@.len() as int / 4) <= byte < icon.data@.len()
                ==> drawn.image.data[byte] == icon.data@[byte]
            &&& i32::MIN <= drawn.width <= i32::MAX
            &&& drawn.width == icon.w || drawn.width + 0x1_0000_0000 == icon.w
            &&& i32::MIN <= drawn.height <= i32::MAX
            &&& drawn.height == icon.h || drawn.height + 0x1_0000_0000 == icon.h
            &&& i32::MIN <= drawn.stride <= i32::MAX
            &&& drawn.stride == icon.w * 4 || drawn.stride + 0x1_0000_0000 == icon.w * 4
        }),
{
    let icon = cache@[cache.ids()[i]];
    if 0 <= pixel && 0 <= colour < 3 && 4 * pixel + 3 < icon.data@.len() {
        pixels_are_premultiplied(icon.data@, pixel, colour);
    }
    if 4 * (icon.data@.len() as int / 4) <= byte < icon.data@.len() {
        leftover_bytes_are_unchanged(icon.data@, byte);
    }
    signed_keeps_the_bits(icon.w as int);
    signed_keeps_the_bits(icon.h as int);
    signed_keeps_the_bits(icon.w * 4);
}

/// The bytes that are drawn depend on the bytes that are kept, and not on the size, the id or
/// the other pictures.
pub proof fn bytes_are_drawn_alike(
    a: IdMap<CachedIcon>,
    i: int,
    b: IdMap<CachedIcon>,
    j: int,
)
    requires
        0 <= i < a.ids().len(),
        0 <= j < b.ids().len(),
        a@[a.ids()[i]].data@ == b@[b.ids()[j]].data@,
    ensures
        drawing(a)[i].image.data == drawing(b)[j].image.data,
        drawing(a)[i].image.data == premultiplied(a@[a.ids()[i]].data@),
{
}

/// Pictures can be drawn exactly where none is so wide that the bytes in its rows exceed a `u32`.
pub proof fn what_can_be_drawn(cache: Map<Seq<char>, CachedIcon>)
    ensures
        drawable(cache) <==> forall|id: Seq<char>| #[trigger]
            cache.contains_key(id) ==> cache[id].w <= 0x3fff_ffff,
{
}

/// A surface says what it holds.
pub proof fn surfaces_say_what_they_hold(surface: Surface)
    ensures
        surface@.id == surface.id@,
        surface@.image.width == surface.icon.w,
        surface@.image.height == surface.icon.h,
        surface@.image.data == surface.icon.data@,
        surface@.width == surface.width,
        surface@.height == surface.height,
        surface@.stride == surface.stride,
{
}

} // verus!
