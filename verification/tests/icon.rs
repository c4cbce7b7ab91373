use bar_tray::icon::{is_choosable, request_size, resolve_icon, CachedIcon, IconSearch, IconStep};
use bar_tray::item::{IconPixmap, Item, ItemId};

fn item() -> Item {
    Item {
        id: ItemId(":1.42/StatusNotifierItem".to_owned()),
        bus_name: ":1.42".to_owned(),
        menu_path: "/MenuBar".to_owned(),
        item_is_menu: false,
        status: "Active".to_owned(),
        icon_theme_path: String::new(),
        icon_name: String::new(),
        icon_pixmaps: vec![],
        attention_icon_name: String::new(),
        attention_icon_pixmaps: vec![],
    }
}

fn pixmap(width: u32, height: u32, byte: u8) -> IconPixmap {
    IconPixmap { width, height, data: vec![byte; 4] }
}

fn icon(byte: u8) -> CachedIcon {
    CachedIcon { data: vec![byte], w: 1, h: 1 }
}

fn load(step: IconStep) -> String {
    match step {
        IconStep::Load(path) => path,
        other => panic!("{other:?}"),
    }
}

fn lookup(step: IconStep) -> (String, u16) {
    match step {
        IconStep::Lookup { name, size } => (name, size),
        other => panic!("{other:?}"),
    }
}

fn done(step: IconStep) -> Option<CachedIcon> {
    match step {
        IconStep::Done(icon) => icon,
        other => panic!("{other:?}"),
    }
}

fn start(item: &Item) -> (IconSearch<'_>, IconStep) {
    resolve_icon(item, 20)
}

#[test]
fn the_largest_pixmap_is_taken_as_it_is() {
    let mut it = item();
    it.icon_name = "never-read".to_owned();
    it.icon_pixmaps = vec![pixmap(16, 16, 1), pixmap(64, 8, 2), pixmap(20, 20, 3)];
    let got = done(start(&it).1).unwrap();
    assert_eq!((got.w, got.h, got.data), (64, 8, vec![2; 4]));
}

#[test]
fn of_pixmaps_as_large_the_last_is_taken() {
    let mut it = item();
    it.icon_pixmaps = vec![pixmap(8, 4, 1), pixmap(4, 8, 2), pixmap(1, 1, 3)];
    let got = done(start(&it).1).unwrap();
    assert_eq!((got.w, got.h, got.data), (4, 8, vec![2; 4]));
}

#[test]
fn a_name_is_looked_for_in_the_search_paths_and_then_in_the_theme() {
    let mut it = item();
    it.icon_name = "fire".to_owned();
    it.icon_theme_path = "/opt/app/icons".to_owned();
    let (mut search, step) = start(&it);
    assert_eq!(load(step), "/opt/app/icons/fire.png");
    assert_eq!(load(search.answer(None)), "/usr/share/pixmaps/fire.png");
    assert_eq!(lookup(search.answer(None)), ("fire".to_owned(), 40));
    assert!(done(search.answer(None)).is_none());
    assert!(done(search.answer(None)).is_none());
}

#[test]
fn without_a_theme_path_the_shared_pixmaps_come_first() {
    let mut it = item();
    it.icon_name = "fire".to_owned();
    let (mut search, step) = start(&it);
    assert_eq!(load(step), "/usr/share/pixmaps/fire.png");
    assert_eq!(done(search.answer(Some(icon(7)))).unwrap().data, [7]);
    assert!(done(search.answer(None)).is_none());
}

#[test]
fn a_path_is_loaded_and_nothing_else_is_tried() {
    let mut it = item();
    it.icon_name = "/tmp/x.png".to_owned();
    it.icon_theme_path = "/opt".to_owned();
    let (mut search, step) = start(&it);
    assert_eq!(load(step), "/tmp/x.png");
    assert!(done(search.answer(None)).is_none());
}

#[test]
fn an_item_without_pictures_and_names_has_no_icon() {
    assert!(done(start(&item()).1).is_none());
}

#[test]
fn attention_is_preferred() {
    let mut it = item();
    it.status = "NeedsAttention".to_owned();
    it.icon_pixmaps = vec![pixmap(64, 64, 1)];
    it.attention_icon_pixmaps = vec![pixmap(2, 2, 2), pixmap(1, 1, 3)];
    assert_eq!(done(start(&it).1).unwrap().data, [2; 4]);
}

#[test]
fn attention_falls_back_to_the_regular_icon() {
    let mut it = item();
    it.status = "NeedsAttention".to_owned();
    it.attention_icon_name = "alarm".to_owned();
    it.icon_pixmaps = vec![pixmap(3, 3, 9)];
    let (mut search, step) = start(&it);
    assert_eq!(load(step), "/usr/share/pixmaps/alarm.png");
    assert_eq!(lookup(search.answer(None)).0, "alarm");
    assert_eq!(done(search.answer(None)).unwrap().data, [9; 4]);

    it.attention_icon_name = String::new();
    assert_eq!(done(start(&it).1).unwrap().data, [9; 4]);
}

#[test]
fn a_named_attention_icon_hides_the_regular_one() {
    let mut it = item();
    it.status = "NeedsAttention".to_owned();
    it.attention_icon_name = "/a.png".to_owned();
    it.icon_pixmaps = vec![pixmap(3, 3, 9)];
    let (mut search, step) = start(&it);
    assert_eq!(load(step), "/a.png");
    assert_eq!(done(search.answer(Some(icon(5)))).unwrap().data, [5]);
}

#[test]
fn without_attention_the_attention_icon_is_not_used() {
    let mut it = item();
    it.attention_icon_pixmaps = vec![pixmap(64, 64, 1)];
    it.attention_icon_name = "alarm".to_owned();
    assert!(done(start(&it).1).is_none());
    it.status = "needsattention".to_owned();
    assert!(done(start(&it).1).is_none());
}

#[test]
fn the_theme_is_asked_for_twice_the_height_within_bounds() {
    assert_eq!(request_size(0), 32);
    assert_eq!(request_size(15), 32);
    assert_eq!(request_size(16), 32);
    assert_eq!(request_size(17), 34);
    assert_eq!(request_size(127), 254);
    assert_eq!(request_size(128), 256);
    assert_eq!(request_size(129), 256);
    assert_eq!(request_size(5000), 256);
}

#[test]
fn menu_paths_tell_whether_there_is_a_menu() {
    let mut it = item();
    assert!(it.has_menu());
    it.menu_path = "/".to_owned();
    assert!(!it.has_menu());
    it.menu_path = String::new();
    assert!(!it.has_menu());
    it.menu_path = "//".to_owned();
    assert!(it.has_menu());
}

#[test]
fn search_paths_of_an_item() {
    let mut it = item();
    assert_eq!(it.icon_search_paths(), ["/usr/share/pixmaps"]);
    it.icon_theme_path = "/a".to_owned();
    assert_eq!(it.icon_search_paths(), ["/a", "/usr/share/pixmaps"]);
    assert!(it.best_icon_pixmap().is_none());
    assert!(it.best_attention_icon_pixmap().is_none());
}

#[test]
fn pictures_must_be_countable_where_one_is_chosen() {
    let huge = || vec![pixmap(0x1_0000, 0x1_0000, 1)];
    let mut it = item();
    assert!(is_choosable(&it));
    it.icon_pixmaps = huge();
    assert!(!is_choosable(&it));
    it.status = "NeedsAttention".to_owned();
    assert!(!is_choosable(&it));
    it.attention_icon_name = "alarm".to_owned();
    assert!(is_choosable(&it));
    it.attention_icon_name = String::new();
    it.attention_icon_pixmaps = vec![pixmap(1, 1, 2)];
    assert!(is_choosable(&it));
    it.attention_icon_pixmaps = huge();
    assert!(!is_choosable(&it));
    it.status = "Active".to_owned();
    it.icon_pixmaps = vec![pixmap(0xffff, 0x1_0001, 1)];
    assert!(is_choosable(&it));
}

#[test]
fn regular_pictures_are_not_looked_at_while_attention_has_places_left() {
    let mut it = item();
    it.status = "NeedsAttention".to_owned();
    it.attention_icon_name = "alarm".to_owned();
    it.icon_pixmaps = vec![pixmap(0x1_0000, 0x1_0000, 1)];
    let (mut search, step) = start(&it);
    assert_eq!(load(step), "/usr/share/pixmaps/alarm.png");
    assert!(search.is_ready());
    assert_eq!(lookup(search.answer(None)).0, "alarm");
    assert!(!search.is_ready());
    assert_eq!(done(search.answer(Some(icon(5)))).unwrap().data, [5]);
    assert!(search.is_ready());
}
