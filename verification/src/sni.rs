//! What the `rustsni` crate computes from the properties of a tray item.
//!
//! Nothing here is proved: each contract states what the crate's source shows.

use vstd::prelude::*;

use crate::item::{countable, images, largest_at, names_a_menu, search_paths, IconPixmap};

verus! {

/// The tray item of `rustsni`.
#[verifier::external_type_specification]
#[verifier::external_body]
pub struct ExSniItem(rustsni::TrayItem);

/// A `rustsni::TrayItem` with every property empty, to be filled in before it is asked
/// something. Nothing is claimed of it.
#[verifier::external_body]
pub(crate) fn blank_item() -> (r: rustsni::TrayItem) {
    let e = String::new;
    rustsni::TrayItem {
        id: rustsni::ItemId(e()), bus_name: e(), object_path: e(), category: e(), item_id: e(),
        title: e(), status: e(), window_id: 0, icon_theme_path: e(), icon_name: e(),
        icon_pixmaps: vec![], attention_icon_name: e(), attention_icon_pixmaps: vec![],
        attention_movie_name: e(), overlay_icon_name: e(), overlay_icon_pixmaps: vec![],
        item_is_menu: false, menu_path: e(), tooltip: rustsni::ToolTip::default(),
    }
}

/// `rustsni::TrayItem::has_menu` of an item with this menu path: there is a menu unless
/// the path is empty or `/`. No other property of the item is read.
#[verifier::external_body]
pub(crate) fn has_menu(item: rustsni::TrayItem, menu_path: &str) -> (r: bool)
    ensures
        r == names_a_menu(menu_path@),
{
    rustsni::TrayItem { menu_path: menu_path.to_owned(), ..item }.has_menu()
}

/// `rustsni::TrayItem::best_icon_pixmap` of an item with these pictures: a copy of the one
/// with the most pixels, the last of them where several have as many. The pixels are counted
/// in a `u32`. No other property of the item is read.
#[verifier::external_body]
pub(crate) fn best_icon_pixmap(item: rustsni::TrayItem, pixmaps: &Vec<IconPixmap>) -> (r: Option<
    IconPixmap,
>)
    requires
        countable(images(pixmaps@)),
    ensures
        match r {
            Some(p) => exists|i: int|
                #[trigger] largest_at(images(pixmaps@), i) && p@ == images(pixmaps@)[i],
            None => pixmaps@.len() == 0,
        },
{
    let to = |p: &IconPixmap| rustsni::IconPixmap { width: p.width, height: p.height, data: p.data.clone() };
    let icon_pixmaps = pixmaps.iter().map(to).collect();
    rustsni::TrayItem { icon_pixmaps, ..item }.best_icon_pixmap().map(
        |p| IconPixmap { width: p.width, height: p.height, data: p.data.clone() },
    )
}

/// `rustsni::TrayItem::best_attention_icon_pixmap` of an item with these pictures for
/// attention: a copy of the one with the most pixels, the last of them where several have as
/// many. The pixels are counted in a `u32`. No other property of the item is read.
#[verifier::external_body]
pub(crate) fn best_attention_icon_pixmap(
    item: rustsni::TrayItem,
    pixmaps: &Vec<IconPixmap>,
) -> (r: Option<IconPixmap>)
    requires
        countable(images(pixmaps@)),
    ensures
        match r {
            Some(p) => exists|i: int|
                #[trigger] largest_at(images(pixmaps@), i) && p@ == images(pixmaps@)[i],
            None => pixmaps@.len() == 0,
        },
{
    let to = |p: &IconPixmap| rustsni::IconPixmap { width: p.width, height: p.height, data: p.data.clone() };
    let attention_icon_pixmaps = pixmaps.iter().map(to).collect();
    rustsni::TrayItem { attention_icon_pixmaps, ..item }.best_attention_icon_pixmap().map(
        |p| IconPixmap { width: p.width, height: p.height, data: p.data.clone() },
    )
}

/// `rustsni::TrayItem::icon_search_paths` of an item with this theme path: the theme path,
/// unless it is empty, and then `/usr/share/pixmaps`. No other property of the item is read.
#[verifier::external_body]
pub(crate) fn icon_search_paths(item: rustsni::TrayItem, icon_theme_path: &str) -> (r: Vec<String>)
    ensures
        r@.map_values(|p: String| p@) == search_paths(icon_theme_path@),
{
    let item = rustsni::TrayItem { icon_theme_path: icon_theme_path.to_owned(), ..item };
    item.icon_search_paths().into_iter().map(str::to_owned).collect()
}

} // verus!
