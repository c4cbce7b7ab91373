//! The items that a tray host announces, and what is asked of the host.

use vstd::prelude::*;

use crate::id_map::IdMap;
use crate::item::ItemId;
use crate::shared_state::{HostItem, SharedState, TrayAction};

verus! {

/// How an attempt to start the tray host ended.
#[derive(Debug, Clone, Copy, PartialEq, Eq, Structural)]
pub enum HostStart {
    /// There is nothing to run the host on.
    NoRuntime,
    /// The host did not start, as when another one is already running.
    Refused,
    /// The host runs.
    Started,
}

/// Takes note of how the start of the tray host ended. Returns whether the bar is to go on: it
/// does without a tray where there is nothing to run the host on, but not beside another host.
pub fn init<R, H, N, O>(ss: &mut SharedState<R, H, N, O>, start: HostStart) -> (r: bool)
    ensures
        r == (start != HostStart::Refused),
        *final(ss) == (SharedState {
            tray_host: old(ss).tray_host || start == HostStart::Started,
            ..*old(ss)
        }),
{
    match start {
        HostStart::NoRuntime => true,
        HostStart::Refused => false,
        HostStart::Started => {
            ss.tray_host = true;
            true
        },
    }
}

/// What the tray host announces.
pub enum HostEvent {
    ItemAdded(HostItem),
    ItemChanged(HostItem),
    ItemRemoved(ItemId),
}

/// What waits in the queue of announcements.
pub enum Received {
    Event(HostEvent),
    /// Nothing, for now.
    Empty,
    /// Nothing, ever again.
    Closed,
    /// Some announcements were lost.
    Lagged,
}

/// Whether the entry `old` under `id` is a leftover of the application that now announces
/// `item`: it has the same title or the same icon, but another id.
pub open spec fn stale(id: Seq<char>, old: HostItem, item: HostItem) -> bool {
    id != item.id@ && (old.title@ == item.title@ || old.icon_name@ == item.icon_name@)
}

/// The entries that are not leftovers of the application that announces `item`.
pub open spec fn without_stale(items: Map<Seq<char>, HostItem>, item: HostItem) -> Map<
    Seq<char>,
    HostItem,
> {
    items.remove_keys(
        items.dom().filter(|id: Seq<char>| stale(id, items[id], item)),
    )
}

/// The items once an announcement has been taken in.
pub open spec fn after_event(items: Map<Seq<char>, HostItem>, event: HostEvent) -> Map<
    Seq<char>,
    HostItem,
> {
    match event {
        HostEvent::ItemAdded(item) => without_stale(items, item).insert(item.id@, item),
        HostEvent::ItemChanged(item) => without_stale(items, item).insert(item.id@, item),
        HostEvent::ItemRemoved(id) => items.remove(id@),
    }
}

/// The items once announcements have been taken in, first to last.
pub open spec fn after_events(items: Map<Seq<char>, HostItem>, events: Seq<HostEvent>) -> Map<
    Seq<char>,
    HostItem,
>
    decreases events.len(),
{
    if events.len() == 0 {
        items
    } else {
        after_event(after_events(items, events.drop_last()), events.last())
    }
}

/// No two entries have the same title or the same icon, and each is found under its own id.
pub open spec fn no_leftovers(items: Map<Seq<char>, HostItem>) -> bool {
    &&& forall|a: Seq<char>|
        #[trigger] items.contains_key(a) ==> items[a].id@ == a
    &&& forall|a: Seq<char>, b: Seq<char>|
        #[trigger] items.contains_key(a) && #[trigger] items.contains_key(b) && a != b
            ==> items[a].title@ != items[b].title@ && items[a].icon_name@ != items[b].icon_name@
}

/// Takes out the leftovers of the application that announces `item`.
fn drop_stale(items: &mut IdMap<HostItem>, item: &HostItem)
    requires
        old(items).wf(),
    ensures
        final(items).wf(),
        final(items)@ == without_stale(old(items)@, *item),
{
    let ghost before = items@;
    let mut i: usize = 0;
    while i < items.len()
        invariant
            items.wf(),
            i <= items.ids().len(),
            forall|j: int|
                0 <= j < i ==> !stale(#[trigger] items.ids()[j], before[items.ids()[j]], *item),
            forall|id: Seq<char>| #[trigger]
                items@.contains_key(id) ==> before.contains_key(id) && items@[id] == before[id],
            forall|id: Seq<char>| #[trigger]
                before.contains_key(id) && !stale(id, before[id], *item) ==> items@.contains_key(
                    id,
                ),
        decreases items.ids().len() - i,
    {
        let (id, old_item) = items.entry(i);
        let leftover: bool = *id != item.id.0 && (old_item.title == item.title
            || old_item.icon_name == item.icon_name);
        if leftover {
            items.remove_at(i);
        } else {
            i = i + 1;
        }
    }
    proof {
        let after = without_stale(before, *item);
        assert forall|id: Seq<char>| items@.contains_key(id) <==> #[trigger] after.contains_key(
            id,
        ) by {
            items.ids_are_the_domain(id);
            if items@.contains_key(id) {
                let j = items.ids().index_of(id);
                assert(items.ids()[j] == id);
            }
        }
        assert(items@ =~= after);
    }
}

/// Takes an announcement in.
pub fn apply(items: &mut IdMap<HostItem>, event: HostEvent)
    requires
        old(items).wf(),
    ensures
        final(items).wf(),
        final(items)@ == after_event(old(items)@, event),
{
    match event {
        HostEvent::ItemAdded(item) | HostEvent::ItemChanged(item) => {
            drop_stale(items, &item);
            items.insert(item.id.0.clone(), item);
        },
        HostEvent::ItemRemoved(id) => {
            items.remove(id.0.as_str());
        },
    }
}

/// Takes in what waits in the queue of announcements. Returns whether there may be more.
pub fn receive<R, H, N, O>(ss: &mut SharedState<R, H, N, O>, received: Received) -> (r: bool)
    requires
        old(ss).wf(),
    ensures
        final(ss).wf(),
        r == (received is Event || received is Lagged),
        final(ss).tray_items@ == match received {
            Received::Event(event) => after_event(old(ss).tray_items@, event),
            _ => old(ss).tray_items@,
        },
        *final(ss) == (SharedState { tray_items: final(ss).tray_items, ..*old(ss) }),
{
    match received {
        Received::Event(event) => {
            apply(&mut ss.tray_items, event);
            true
        },
        Received::Empty => false,
        Received::Closed => false,
        Received::Lagged => true,
    }
}

/// What is asked of the tray host.
#[derive(Debug)]
pub enum HostRequest {
    /// Activate this entry of the item's menu, or the item itself for entry 0.
    Activate { id: ItemId, entry: u32 },
    /// Show the item's menu.
    ShowMenu { id: ItemId },
}

/// What the host is asked when an item was clicked.
pub open spec fn request_for(id: ItemId, action: TrayAction) -> HostRequest {
    match action {
        TrayAction::Activate => HostRequest::Activate { id, entry: 0 },
        TrayAction::ShowMenu => HostRequest::ShowMenu { id },
    }
}

/// Takes what is to be done with a clicked item, so that it is done once.
pub fn take_request<R, H, N, O>(ss: &mut SharedState<R, H, N, O>) -> (r: Option<HostRequest>)
    requires
        old(ss).pending_tray_action is Some ==> old(ss).tray_host,
    ensures
        r == match old(ss).pending_tray_action {
            Some((id, action)) => Some(request_for(id, action)),
            None => None,
        },
        *final(ss) == (SharedState { pending_tray_action: None, ..*old(ss) }),
{
    match ss.pending_tray_action.take() {
        Some((id, action)) => match action {
            TrayAction::Activate => Some(HostRequest::Activate { id, entry: 0 }),
            TrayAction::ShowMenu => Some(HostRequest::ShowMenu { id }),
        },
        None => None,
    }
}

/// Whatever is announced, no two entries ever have the same title or the same icon: an
/// application that comes back under another id leaves no second entry behind.
pub proof fn events_leave_no_leftovers(items: Map<Seq<char>, HostItem>, events: Seq<HostEvent>)
    requires
        no_leftovers(items),
    ensures
        no_leftovers(after_events(items, events)),
    decreases events.len(),
{
    if events.len() > 0 {
        events_leave_no_leftovers(items, events.drop_last());
        event_leaves_no_leftovers(after_events(items, events.drop_last()), events.last());
    }
}

/// An announcement leaves no two entries with the same title or the same icon.
pub proof fn event_leaves_no_leftovers(items: Map<Seq<char>, HostItem>, event: HostEvent)
    requires
        no_leftovers(items),
    ensures
        no_leftovers(after_event(items, event)),
{
    let after = after_event(items, event);
    match event {
        HostEvent::ItemRemoved(id) => {
            assert forall|a: Seq<char>| #[trigger] after.contains_key(a) implies after[a].id@
                == a by {
                assert(items.contains_key(a));
            }
            assert forall|a: Seq<char>, b: Seq<char>| #[trigger]
                after.contains_key(a) && #[trigger] after.contains_key(b) && a
                    != b implies after[a].title@ != after[b].title@ && after[a].icon_name@
                != after[b].icon_name@ by {
                assert(items.contains_key(a) && items.contains_key(b));
            }
        },
        HostEvent::ItemAdded(item) | HostEvent::ItemChanged(item) => {
            assert forall|a: Seq<char>| #[trigger] after.contains_key(a) implies after[a].id@
                == a by {
                assert(a != item.id@ ==> items.contains_key(a));
            }
            assert forall|a: Seq<char>, b: Seq<char>| #[trigger]
                after.contains_key(a) && #[trigger] after.contains_key(b) && a
                    != b implies after[a].title@ != after[b].title@ && after[a].icon_name@
                != after[b].icon_name@ by {
                assert(a != item.id@ ==> items.contains_key(a) && !stale(a, items[a], item));
                assert(b != item.id@ ==> items.contains_key(b) && !stale(b, items[b], item));
            }
        },
    }
}

/// An announced item is among the items, as it was announced, and an item that is gone is not.
pub proof fn announced_is_kept(items: Map<Seq<char>, HostItem>, event: HostEvent)
    ensures
        match event {
            HostEvent::ItemAdded(item) | HostEvent::ItemChanged(item) => {
                &&& after_event(items, event).contains_key(item.id@)
                &&& after_event(items, event)[item.id@] == item
            },
            HostEvent::ItemRemoved(id) => !after_event(items, event).contains_key(id@),
        },
{
}

/// An announcement leaves the other entries alone, but for leftovers of the item announced.
pub proof fn others_are_left_alone(
    items: Map<Seq<char>, HostItem>,
    item: HostItem,
    id: Seq<char>,
)
    requires
        items.contains_key(id),
        id != item.id@,
        !stale(id, items[id], item),
    ensures
        after_event(items, HostEvent::ItemAdded(item)).contains_key(id),
        after_event(items, HostEvent::ItemAdded(item))[id] == items[id],
        after_event(items, HostEvent::ItemChanged(item)) == after_event(
            items,
            HostEvent::ItemAdded(item),
        ),
{
}

/// Announcing an item a second time changes nothing.
pub proof fn announcing_twice(items: Map<Seq<char>, HostItem>, item: HostItem)
    ensures
        ({
            let once = after_event(items, HostEvent::ItemAdded(item));
            after_event(once, HostEvent::ItemChanged(item)) == once
        }),
{
    let once = after_event(items, HostEvent::ItemAdded(item));
    assert(after_event(once, HostEvent::ItemChanged(item)) =~= once);
}

/// Removing an item takes its entry out, and leaves every other entry as it is.
pub proof fn removing_touches_its_item_alone(
    items: Map<Seq<char>, HostItem>,
    gone: ItemId,
    id: Seq<char>,
)
    ensures
        !after_event(items, HostEvent::ItemRemoved(gone)).contains_key(gone.0@),
        id != gone.0@ ==> after_event(items, HostEvent::ItemRemoved(gone)).contains_key(id)
            == items.contains_key(id),
        id != gone.0@ && items.contains_key(id) ==> after_event(
            items,
            HostEvent::ItemRemoved(gone),
        )[id] == items[id],
{
}

/// An item that is announced, as new or as changed, is found under its id as it was announced.
/// Of the other entries exactly those are left, and unchanged, that have another title and
/// another icon.
pub proof fn announcing_replaces_those_that_look_alike(
    items: Map<Seq<char>, HostItem>,
    item: HostItem,
    event: HostEvent,
    id: Seq<char>,
)
    requires
        event == HostEvent::ItemAdded(item) || event == HostEvent::ItemChanged(item),
    ensures
        after_event(items, event).contains_key(item.id.0@),
        after_event(items, event)[item.id.0@] == item,
        id != item.id.0@ ==> (after_event(items, event).contains_key(id) <==> items.contains_key(id)
            && items[id].title@ != item.title@ && items[id].icon_name@ != item.icon_name@),
        id != item.id.0@ && after_event(items, event).contains_key(id) ==> after_event(
            items,
            event,
        )[id] == items[id],
{
}

/// A removed item can come back: announcing it again leaves what announcing it at first would
/// have left.
pub proof fn removing_and_announcing_is_announcing(
    items: Map<Seq<char>, HostItem>,
    item: HostItem,
)
    ensures
        after_event(
            after_event(items, HostEvent::ItemRemoved(item.id)),
            HostEvent::ItemAdded(item),
        ) == after_event(items, HostEvent::ItemAdded(item)),
{
    assert(after_event(
        after_event(items, HostEvent::ItemRemoved(item.id)),
        HostEvent::ItemAdded(item),
    ) =~= after_event(items, HostEvent::ItemAdded(item)));
}

/// Announcements are taken in one after the other.
pub proof fn events_are_taken_in_turn(
    items: Map<Seq<char>, HostItem>,
    a: Seq<HostEvent>,
    b: Seq<HostEvent>,
)
    ensures
        after_events(items, a + b) == after_events(after_events(items, a), b),
    decreases b.len(),
{
    if b.len() == 0 {
        assert(a + b =~= a);
    } else {
        assert((a + b).drop_last() =~= a + b.drop_last());
        assert((a + b).last() == b.last());
        events_are_taken_in_turn(items, a, b.drop_last());
    }
}

/// The host is asked about the item that was clicked, to activate the item itself or to show its
/// menu, as the click said.
pub proof fn requests_are_for_the_clicked_item(id: ItemId)
    ensures
        request_for(id, TrayAction::Activate) == (HostRequest::Activate { id, entry: 0u32 }),
        request_for(id, TrayAction::ShowMenu) == (HostRequest::ShowMenu { id }),
{
}

} // verus!
