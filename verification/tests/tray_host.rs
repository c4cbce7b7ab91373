use bar_tray::item::ItemId;
use bar_tray::shared_state::{Config, HostItem, SharedState, TrayAction, WmInfoProvider};
use bar_tray::tray_host::{init, receive, take_request, HostEvent, HostRequest, HostStart, Received};

type State = SharedState<u8, u16, String, i8>;

fn state() -> State {
    SharedState::new(Config { height: 24, menu_command: None }, WmInfoProvider::Other(-3))
}

fn id(text: &str) -> ItemId {
    ItemId(text.to_owned())
}

fn item(name: &str, title: &str, icon_name: &str) -> HostItem {
    let icon = |name: &str| libtrayd::IconData { name: name.to_owned(), pixmaps: vec![] };
    HostItem {
        id: id(name),
        title: title.to_owned(),
        icon_name: icon_name.to_owned(),
        item: libtrayd::TrayItem {
            id: libtrayd::ItemId(name.to_owned()),
            bus_name: name.to_owned(),
            object_path: "/StatusNotifierItem".to_owned(),
            title: title.to_owned(),
            status: libtrayd::TrayStatus::Active,
            category: String::new(),
            item_is_menu: false,
            tool_tip: libtrayd::ToolTip::default(),
            overlay_icon: icon(""),
            icon: icon(icon_name),
            attention_icon: icon(""),
            menu_path: String::new(),
        },
    }
}

fn add(ss: &mut State, name: &str, title: &str, icon_name: &str) {
    assert!(receive(ss, Received::Event(HostEvent::ItemAdded(item(name, title, icon_name)))));
}

fn names(ss: &State) -> Vec<String> {
    (0..ss.tray_items.len()).map(|i| ss.tray_items.entry(i).0.clone()).collect()
}

#[test]
fn the_bar_goes_on_unless_the_host_is_refused() {
    let mut ss = state();
    assert!(init(&mut ss, HostStart::NoRuntime));
    assert!(!ss.tray_host);
    assert!(!init(&mut ss, HostStart::Refused));
    assert!(!ss.tray_host);
    assert!(init(&mut ss, HostStart::Started));
    assert!(ss.tray_host);
}

#[test]
fn items_come_and_go() {
    let mut ss = state();
    add(&mut ss, "b", "B", "b-icon");
    add(&mut ss, "a", "A", "a-icon");
    assert_eq!(names(&ss), ["a", "b"]);
    assert_eq!(ss.tray_items.get("a").unwrap().item.title, "A");
    assert!(receive(&mut ss, Received::Event(HostEvent::ItemRemoved(id("b")))));
    assert!(receive(&mut ss, Received::Event(HostEvent::ItemRemoved(id("never")))));
    assert_eq!(names(&ss), ["a"]);
}

#[test]
fn a_changed_item_takes_the_place_of_what_it_was() {
    let mut ss = state();
    add(&mut ss, "a", "A", "a-icon");
    assert!(receive(&mut ss, Received::Event(HostEvent::ItemChanged(item("a", "New", "n")))));
    assert_eq!(names(&ss), ["a"]);
    assert_eq!(ss.tray_items.get("a").unwrap().title, "New");
    assert_eq!(ss.tray_items.get("a").unwrap().item.icon.name, "n");
}

#[test]
fn leftovers_with_the_same_title_or_icon_are_dropped() {
    let mut ss = state();
    add(&mut ss, ":1.1", "Mail", "mail");
    add(&mut ss, ":1.2", "Chat", "chat");
    add(&mut ss, ":1.3", "Other", "other");
    add(&mut ss, ":1.4", "Mail", "mail-new");
    assert_eq!(names(&ss), [":1.2", ":1.3", ":1.4"]);
    add(&mut ss, ":1.5", "Chat again", "chat");
    assert_eq!(names(&ss), [":1.3", ":1.4", ":1.5"]);
    add(&mut ss, ":1.6", "Other", "mail-new");
    assert_eq!(names(&ss), [":1.5", ":1.6"]);
}

#[test]
fn no_two_entries_share_a_title_or_an_icon() {
    let mut ss = state();
    for n in 0..60u32 {
        add(&mut ss, &format!("{}", n % 7), &format!("t{}", n % 5), &format!("i{}", n % 3));
        for i in 0..ss.tray_items.len() {
            for j in 0..i {
                let (a, b) = (ss.tray_items.entry(i).1, ss.tray_items.entry(j).1);
                assert_ne!(a.title, b.title);
                assert_ne!(a.icon_name, b.icon_name);
            }
        }
    }
}

#[test]
fn announcing_twice_changes_nothing() {
    let mut ss = state();
    add(&mut ss, "a", "A", "x");
    add(&mut ss, "b", "B", "y");
    let before = names(&ss);
    add(&mut ss, "b", "B", "y");
    assert_eq!(names(&ss), before);
}

#[test]
fn the_queue_is_read_until_it_is_empty_or_closed() {
    let mut ss = state();
    add(&mut ss, "a", "A", "x");
    assert!(receive(&mut ss, Received::Lagged));
    assert!(!receive(&mut ss, Received::Empty));
    assert!(!receive(&mut ss, Received::Closed));
    assert_eq!(names(&ss), ["a"]);
}

#[test]
fn a_pending_action_is_taken_once() {
    let mut ss = state();
    assert!(init(&mut ss, HostStart::Started));
    assert!(take_request(&mut ss).is_none());
    ss.pending_tray_action = Some((id("a"), TrayAction::Activate));
    match take_request(&mut ss) {
        Some(HostRequest::Activate { id, entry }) => {
            assert_eq!(id.0, "a");
            assert_eq!(entry, 0);
        }
        other => panic!("{other:?}"),
    }
    assert!(take_request(&mut ss).is_none());
    ss.pending_tray_action = Some((id("b"), TrayAction::ShowMenu));
    match take_request(&mut ss) {
        Some(HostRequest::ShowMenu { id }) => assert_eq!(id.0, "b"),
        other => panic!("{other:?}"),
    }
}

#[test]
fn the_window_manager_is_the_one_in_use() {
    let mut ss = state();
    assert!(ss.get_river().is_none());
    assert!(ss.get_hyprland().is_none());
    assert!(ss.get_niri().is_none());
    assert!(matches!(ss.wm_info_provider, WmInfoProvider::Other(-3)));
    ss.wm_info_provider = WmInfoProvider::River(1);
    *ss.get_river().unwrap() += 4;
    assert!(ss.get_hyprland().is_none());
    assert!(matches!(ss.wm_info_provider, WmInfoProvider::River(5)));
    ss.wm_info_provider = WmInfoProvider::Hyprland(7);
    assert_eq!(ss.get_hyprland(), Some(&mut 7));
    assert!(ss.get_river().is_none());
    ss.wm_info_provider = WmInfoProvider::Niri("n".to_owned());
    ss.get_niri().unwrap().push('!');
    assert_eq!(ss.get_niri().unwrap(), "n!");
    assert!(ss.get_river().is_none());
}
