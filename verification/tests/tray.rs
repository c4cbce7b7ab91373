use bar_tray::icon::CachedIcon;
use bar_tray::item::{Item, ItemId};
use bar_tray::menu::MenuNode;
use bar_tray::shared_state::{Config, SharedState, WmInfoProvider};
use bar_tray::tray::{
    buttons, found_items, handle_click, init, is_drawable, poll, ready, render, show_menu,
    slot_size, ClickAction, DrainStep, MenuStart, PointerBtn, ReadyStep, Resolved, TrayEvent,
    Update,
};

type State = SharedState<u8, u16, String, ()>;

fn state(menu_command: Option<&str>) -> State {
    let config = Config { height: 24, menu_command: menu_command.map(str::to_owned) };
    let mut ss = SharedState::new(config, WmInfoProvider::Other(()));
    assert!(init(&mut ss, true).is_some());
    ss
}

fn id(text: &str) -> ItemId {
    ItemId(text.to_owned())
}

fn icon(byte: u8) -> CachedIcon {
    CachedIcon { data: vec![byte, byte, byte, 255], w: 1, h: 1 }
}

fn added(text: &str, icon: Option<CachedIcon>) -> Update {
    Update {
        event: TrayEvent::ItemAdded(id(text)),
        item: Some(Resolved { id: id(text), icon }),
    }
}

fn changed(text: &str, icon: Option<CachedIcon>) -> Update {
    Update {
        event: TrayEvent::ItemChanged(id(text)),
        item: Some(Resolved { id: id(text), icon }),
    }
}

fn bare(event: TrayEvent) -> Update {
    Update { event, item: None }
}

fn item(menu_path: &str, item_is_menu: bool) -> Item {
    Item {
        id: id("x"),
        bus_name: ":1.7".to_owned(),
        menu_path: menu_path.to_owned(),
        item_is_menu,
        status: "Active".to_owned(),
        icon_theme_path: String::new(),
        icon_name: String::new(),
        icon_pixmaps: vec![],
        attention_icon_name: String::new(),
        attention_icon_pixmaps: vec![],
    }
}

fn node() -> MenuNode {
    MenuNode {
        id: 1,
        label: "Open".to_owned(),
        enabled: true,
        visible: true,
        is_submenu: false,
        children: vec![],
    }
}

fn shown(ss: &State) -> Vec<(String, u8)> {
    match render(ss) {
        Some(list) => list.iter().map(|s| (s.id.clone(), s.icon.data[0])).collect(),
        None => vec![],
    }
}

/// How many polls a discovery makes, and whether it has anything to draw.
fn discover(ss: &mut State, polls: Vec<Option<Vec<Update>>>) -> (usize, bool) {
    let mut drain = init(ss, true).unwrap();
    for (i, polled) in polls.into_iter().enumerate() {
        let items = found_items(&polled);
        let events = poll(ss, polled);
        if let DrainStep::Finished { dirty } = drain.polled(events, items) {
            return (i + 1, dirty);
        }
    }
    panic!("the discovery goes on");
}

#[test]
fn discovery_takes_every_batch() {
    let config = Config { height: 24, menu_command: None };
    let mut ss: State = SharedState::new(config, WmInfoProvider::Other(()));
    let polls = vec![
        Some(vec![bare(TrayEvent::MenuChanged(id("a")))]),
        Some(vec![added("b", Some(icon(1))), added("a", Some(icon(2)))]),
        Some(vec![changed("b", Some(icon(3))), bare(TrayEvent::ItemRemoved(id("a")))]),
        Some(vec![]),
        Some(vec![added("c", Some(icon(4)))]),
    ];
    assert_eq!(discover(&mut ss, polls), (4, true));
    assert!(ss.tray);
    assert_eq!(shown(&ss), [("b".to_owned(), 3)]);
}

#[test]
fn discovery_without_items_is_not_dirty() {
    assert_eq!(discover(&mut state(None), vec![Some(vec![])]), (1, false));
    assert_eq!(discover(&mut state(None), vec![None]), (1, false));
    let polls = vec![Some(vec![bare(TrayEvent::HostShutdown)]), Some(vec![])];
    assert_eq!(discover(&mut state(None), polls), (2, false));
    let polls = vec![Some(vec![changed("a", Some(icon(1)))]), None];
    assert_eq!(discover(&mut state(None), polls), (2, false));
}

#[test]
fn only_added_items_are_found() {
    assert!(!found_items(&None));
    assert!(!found_items(&Some(vec![])));
    assert!(!found_items(&Some(vec![
        changed("a", None),
        bare(TrayEvent::ItemRemoved(id("a"))),
        bare(TrayEvent::MenuChanged(id("a"))),
        bare(TrayEvent::MenuActivationRequested(id("a"))),
        bare(TrayEvent::HostShutdown),
    ])));
    assert!(found_items(&Some(vec![bare(TrayEvent::HostShutdown), added("a", None)])));
}

#[test]
fn without_a_connection_there_is_no_tray() {
    let config = Config { height: 24, menu_command: None };
    let mut ss: State = SharedState::new(config, WmInfoProvider::Other(()));
    assert!(init(&mut ss, false).is_none());
    assert!(!ss.tray);
    assert!(!poll(&mut ss, Some(vec![added("a", Some(icon(1)))])));
    assert!(render(&ss).is_none());
}

#[test]
fn a_ready_bus_is_polled_and_drawn_until_it_is_quiet() {
    assert_eq!(ready(true), ReadyStep::DrawAndPollAgain);
    assert_eq!(ready(false), ReadyStep::Keep);
}

#[test]
fn polling_keeps_the_pictures_up_to_date() {
    let mut ss = state(None);
    assert!(poll(&mut ss, Some(vec![added("b", Some(icon(1))), added("a", Some(icon(2)))])));
    assert_eq!(shown(&ss), [("a".to_owned(), 2), ("b".to_owned(), 1)]);
    assert!(poll(&mut ss, Some(vec![changed("b", Some(icon(3)))])));
    assert_eq!(shown(&ss), [("a".to_owned(), 2), ("b".to_owned(), 3)]);
    assert!(poll(&mut ss, Some(vec![changed("a", None)])));
    assert_eq!(shown(&ss), [("b".to_owned(), 3)]);
    assert!(poll(&mut ss, Some(vec![bare(TrayEvent::ItemRemoved(id("b")))])));
    assert!(render(&ss).is_none());
}

#[test]
fn a_poll_without_reports_or_that_failed_changes_nothing() {
    let mut ss = state(None);
    assert!(poll(&mut ss, Some(vec![added("a", Some(icon(1)))])));
    assert!(!poll(&mut ss, Some(vec![])));
    assert!(!poll(&mut ss, None));
    assert_eq!(shown(&ss), [("a".to_owned(), 1)]);
}

#[test]
fn other_reports_only_ask_for_a_redraw() {
    let mut ss = state(None);
    assert!(poll(&mut ss, Some(vec![added("a", Some(icon(1)))])));
    for event in [
        TrayEvent::MenuChanged(id("a")),
        TrayEvent::MenuActivationRequested(id("a")),
        TrayEvent::HostShutdown,
        TrayEvent::ItemAdded(id("a")),
    ] {
        assert!(poll(&mut ss, Some(vec![bare(event)])));
        assert_eq!(shown(&ss), [("a".to_owned(), 1)]);
    }
}

#[test]
fn the_last_report_on_an_item_decides() {
    let mut ss = state(None);
    assert!(poll(
        &mut ss,
        Some(vec![
            added("a", Some(icon(1))),
            bare(TrayEvent::ItemRemoved(id("a"))),
            added("c", Some(icon(4))),
            added("a", Some(icon(5))),
            bare(TrayEvent::ItemRemoved(id("c"))),
        ])
    ));
    assert_eq!(shown(&ss), [("a".to_owned(), 5)]);
}

#[test]
fn only_added_and_changed_items_need_a_picture() {
    assert_eq!(TrayEvent::ItemAdded(id("a")).subject().unwrap().0, "a");
    assert_eq!(TrayEvent::ItemChanged(id("b")).subject().unwrap().0, "b");
    assert!(TrayEvent::ItemRemoved(id("a")).subject().is_none());
    assert!(TrayEvent::MenuChanged(id("a")).subject().is_none());
    assert!(TrayEvent::HostShutdown.subject().is_none());
}

#[test]
fn clicks_with_the_left_button() {
    let ss = state(None);
    let click = |it: Option<&Item>| handle_click(&ss, it, PointerBtn::Left);
    assert_eq!(click(Some(&item("/Menu", true))), ClickAction::ShowMenu);
    assert_eq!(click(Some(&item("/Menu", false))), ClickAction::Activate);
    assert_eq!(click(Some(&item("/", true))), ClickAction::Activate);
    assert_eq!(click(None), ClickAction::Activate);
}

#[test]
fn clicks_with_the_right_button() {
    let ss = state(None);
    let click = |it: Option<&Item>| handle_click(&ss, it, PointerBtn::Right);
    assert_eq!(click(Some(&item("/Menu", false))), ClickAction::ShowMenu);
    assert_eq!(click(Some(&item("", true))), ClickAction::ContextMenu);
    assert_eq!(click(None), ClickAction::ContextMenu);
}

#[test]
fn other_clicks_are_not_for_the_tray() {
    let ss = state(None);
    let action = handle_click(&ss, Some(&item("/Menu", true)), PointerBtn::Other);
    assert_eq!(action, ClickAction::Ignored);
    assert!(!action.handled());
    assert!(ClickAction::ShowMenu.handled());
    assert!(ClickAction::Activate.handled());
    assert!(ClickAction::ContextMenu.handled());
    let mut off = state(None);
    off.tray = false;
    assert_eq!(handle_click(&off, None, PointerBtn::Left), ClickAction::Ignored);
}

#[test]
fn a_menu_is_opened_with_the_configured_command() {
    match show_menu(&state(Some("dmenu -i")), Some(vec![node()]), Some(&item("/Menu", true))) {
        MenuStart::Open { command, bus_name, menu_path, nodes } => {
            assert_eq!(command, "dmenu -i");
            assert_eq!(bus_name, ":1.7");
            assert_eq!(menu_path, "/Menu");
            assert_eq!(nodes.len(), 1);
            assert_eq!(nodes[0].label, "Open");
        }
        other => panic!("{other:?}"),
    }
}

#[test]
fn rofi_is_the_command_unless_configured() {
    match show_menu(&state(None), Some(vec![node()]), Some(&item("/Menu", true))) {
        MenuStart::Open { command, .. } => assert_eq!(command, "rofi -dmenu"),
        other => panic!("{other:?}"),
    }
}

#[test]
fn menus_that_cannot_be_opened() {
    let ss = state(None);
    let it = item("/Menu", true);
    assert!(matches!(show_menu(&ss, None, Some(&it)), MenuStart::Nothing));
    assert!(matches!(show_menu(&ss, Some(vec![]), Some(&it)), MenuStart::ContextMenu));
    assert!(matches!(show_menu(&ss, Some(vec![]), None), MenuStart::ContextMenu));
    assert!(matches!(show_menu(&ss, Some(vec![node()]), None), MenuStart::Nothing));
    let mut off = state(None);
    off.tray = false;
    assert!(matches!(show_menu(&off, Some(vec![node()]), Some(&it)), MenuStart::Nothing));
}

#[test]
fn pictures_are_drawn_in_order_and_premultiplied() {
    let mut ss = state(None);
    let half = CachedIcon { data: vec![100, 200, 40, 128, 1, 2, 3, 255], w: 2, h: 1 };
    assert!(poll(
        &mut ss,
        Some(vec![
            added(":1.9", Some(icon(9))),
            added("org.a", Some(half)),
            added(":1.10", Some(icon(8))),
        ])
    ));
    let list = render(&ss).unwrap();
    let ids: Vec<&str> = list.iter().map(|s| s.id.as_str()).collect();
    assert_eq!(ids, [":1.10", ":1.9", "org.a"]);
    assert_eq!(list[2].icon.data, [50, 100, 20, 128, 1, 2, 3, 255]);
    assert_eq!((list[2].width, list[2].height, list[2].stride), (2, 1, 8));
    assert_eq!((list[2].icon.w, list[2].icon.h), (2, 1));
}

#[test]
fn a_picture_can_be_too_wide_to_draw() {
    let mut ss = state(None);
    assert!(is_drawable(&ss));
    let wide = |w| Some(CachedIcon { data: vec![], w, h: 1 });
    assert!(poll(&mut ss, Some(vec![added("a", wide(u32::MAX / 4)), added("b", Some(icon(1)))])));
    assert!(is_drawable(&ss));
    assert_eq!(render(&ss).unwrap()[0].stride, -4);
    assert!(poll(&mut ss, Some(vec![changed("b", wide(u32::MAX / 4 + 1))])));
    assert!(!is_drawable(&ss));
}

#[test]
fn only_drawn_pictures_get_a_button_in_their_place() {
    let mut ss = state(None);
    let updates = ["a", "b", "c"].iter().map(|i| added(i, Some(icon(1)))).collect();
    assert!(poll(&mut ss, Some(updates)));
    let list = render(&ss).unwrap();
    let made = buttons(&list, &vec![true, false, true]);
    let made: Vec<(usize, &str)> = made.iter().map(|b| (b.slot, b.id.as_str())).collect();
    assert_eq!(made, [(0, "a"), (2, "c")]);
}

#[test]
fn buttons_come_in_the_order_of_places_and_ids() {
    let mut ss = state(None);
    let updates = ["d", "b", "a", "c"].iter().map(|i| added(i, Some(icon(1)))).collect();
    assert!(poll(&mut ss, Some(updates)));
    let made = buttons(&render(&ss).unwrap(), &vec![true, true, false, true]);
    assert!(made.windows(2).all(|w| w[0].slot < w[1].slot && w[0].id < w[1].id));
    assert_eq!(made.len(), 3);
}

#[test]
fn what_is_drawn_does_not_depend_on_the_order_of_reports() {
    let mut a = state(None);
    let mut b = state(None);
    assert!(poll(&mut a, Some(vec![added("x", Some(icon(1))), added("y", Some(icon(2)))])));
    assert!(poll(&mut b, Some(vec![added("y", Some(icon(2))), added("x", Some(icon(1)))])));
    assert_eq!(shown(&a), shown(&b));
}

#[test]
fn places_are_a_little_smaller_than_the_bar() {
    assert_eq!(slot_size(24), 20);
    assert_eq!(slot_size(21), 17);
    assert_eq!(slot_size(20), 16);
    assert_eq!(slot_size(3), 16);
    assert_eq!(slot_size(0), 16);
}
