//! Tray items as their applications describe them.

use vstd::prelude::*;

use crate::sni;

verus! {

/// The name by which a tray item is known.
#[derive(Debug, Clone)]
pub struct ItemId(pub String);

impl View for ItemId {
    type V = Seq<char>;

    open spec fn view(&self) -> Seq<char> {
        self.0@
    }
}

/// A picture: its size and its bytes.
pub struct Image {
    pub width: u32,
    pub height: u32,
    pub data: Seq<u8>,
}

impl Image {
    /// How many pixels the picture claims to have.
    pub open spec fn pixels(self) -> int {
        self.width * self.height
    }
}

/// A picture that a tray item sent along, in native-endian ARGB32.
#[derive(Debug, Clone)]
pub struct IconPixmap {
    pub width: u32,
    pub height: u32,
    pub data: Vec<u8>,
}

impl View for IconPixmap {
    type V = Image;

    open spec fn view(&self) -> Image {
        Image { width: self.width, height: self.height, data: self.data@ }
    }
}

/// The pictures of a list.
pub open spec fn images(pixmaps: Seq<IconPixmap>) -> Seq<Image> {
    pixmaps.map_values(|p: IconPixmap| p@)
}

/// Every picture's pixels can be counted in a `u32`.
pub open spec fn countable(images: Seq<Image>) -> bool {
    forall|i: int| 0 <= i < images.len() ==> (#[trigger] images[i]).pixels() <= u32::MAX
}

/// No picture has more pixels than the one at `i`, and none after it has as many.
pub open spec fn largest_at(images: Seq<Image>, i: int) -> bool {
    &&& 0 <= i < images.len()
    &&& forall|j: int| 0 <= j < images.len() ==> (#[trigger] images[j]).pixels() <= images[i].pixels()
    &&& forall|j: int| i < j < images.len() ==> (#[trigger] images[j]).pixels() < images[i].pixels()
}

/// The picture with the most pixels, the last one where several have as many.
pub open spec fn largest(images: Seq<Image>) -> Option<Image> {
    if images.len() == 0 {
        None
    } else {
        Some(images[choose|i: int| largest_at(images, i)])
    }
}

/// A list that is not empty has one largest picture.
pub proof fn one_is_largest(images: Seq<Image>)
    requires
        images.len() > 0,
    ensures
        exists|i: int| largest_at(images, i),
        forall|i: int, j: int| largest_at(images, i) && largest_at(images, j) ==> i == j,
    decreases images.len(),
{
    let n = images.len() - 1;
    if n == 0 {
        assert(largest_at(images, 0));
    } else {
        let front = images.drop_last();
        one_is_largest(front);
        let i = choose|i: int| largest_at(front, i);
        assert(images[i] == front[i]);
        if images[n].pixels() >= images[i].pixels() {
            assert forall|j: int| 0 <= j < images.len() implies (#[trigger] images[j]).pixels()
                <= images[n].pixels() by {
                if j < n {
                    assert(images[j] == front[j]);
                }
            }
            assert(largest_at(images, n));
        } else {
            assert forall|j: int| 0 <= j < images.len() implies (#[trigger] images[j]).pixels()
                <= images[i].pixels() by {
                if j < n {
                    assert(images[j] == front[j]);
                }
            }
            assert forall|j: int| i < j < images.len() implies (#[trigger] images[j]).pixels()
                < images[i].pixels() by {
                if j < n {
                    assert(images[j] == front[j]);
                }
            }
            assert(largest_at(images, i));
        }
    }
}

/// A tray item, with the properties that decisions are made from.
#[derive(Debug, Clone)]
pub struct Item {
    pub id: ItemId,
    /// The bus name under which the item's application is reached.
    pub bus_name: String,
    /// The bus path of the item's menu.
    pub menu_path: String,
    /// Whether the item has nothing but a menu.
    pub item_is_menu: bool,
    /// `Passive`, `Active` or `NeedsAttention`.
    pub status: String,
    /// A directory of the application's own icons.
    pub icon_theme_path: String,
    pub icon_name: String,
    pub icon_pixmaps: Vec<IconPixmap>,
    pub attention_icon_name: String,
    pub attention_icon_pixmaps: Vec<IconPixmap>,
}

/// Whether a menu path names a menu.
pub open spec fn names_a_menu(menu_path: Seq<char>) -> bool {
    menu_path.len() > 0 && menu_path != "/"@
}

/// The directories in which an icon is looked for by name, before the icon themes.
pub open spec fn search_paths(icon_theme_path: Seq<char>) -> Seq<Seq<char>> {
    if icon_theme_path.len() > 0 {
        seq![icon_theme_path, "/usr/share/pixmaps"@]
    } else {
        seq!["/usr/share/pixmaps"@]
    }
}

impl Item {
    /// Whether the item has a menu.
    pub fn has_menu(&self) -> (r: bool)
        ensures
            r == names_a_menu(self.menu_path@),
    {
        sni::has_menu(sni::blank_item(), self.menu_path.as_str())
    }

    /// The largest of the item's pictures.
    pub fn best_icon_pixmap(&self) -> (r: Option<IconPixmap>)
        requires
            countable(images(self.icon_pixmaps@)),
        ensures
            match r {
                Some(p) => largest(images(self.icon_pixmaps@)) == Some(p@),
                None => largest(images(self.icon_pixmaps@)) is None,
            },
    {
        proof {
            if self.icon_pixmaps@.len() > 0 {
                one_is_largest(images(self.icon_pixmaps@));
            }
        }
        sni::best_icon_pixmap(sni::blank_item(), &self.icon_pixmaps)
    }

    /// The largest of the pictures with which the item asks for attention.
    pub fn best_attention_icon_pixmap(&self) -> (r: Option<IconPixmap>)
        requires
            countable(images(self.attention_icon_pixmaps@)),
        ensures
            match r {
                Some(p) => largest(images(self.attention_icon_pixmaps@)) == Some(p@),
                None => largest(images(self.attention_icon_pixmaps@)) is None,
            },
    {
        proof {
            if self.attention_icon_pixmaps@.len() > 0 {
                one_is_largest(images(self.attention_icon_pixmaps@));
            }
        }
        sni::best_attention_icon_pixmap(sni::blank_item(), &self.attention_icon_pixmaps)
    }

    /// The directories in which the item's icons are looked for by name.
    pub fn icon_search_paths(&self) -> (r: Vec<String>)
        ensures
            r@.map_values(|p: String| p@) == search_paths(self.icon_theme_path@),
    {
        sni::icon_search_paths(sni::blank_item(), self.icon_theme_path.as_str())
    }
}

/// The pictures of a list are its pixmaps, each with its own size and bytes.
pub proof fn pictures_are_the_pixmaps(pixmaps: Seq<IconPixmap>, i: int)
    requires
        0 <= i < pixmaps.len(),
    ensures
        images(pixmaps).len() == pixmaps.len(),
        images(pixmaps)[i].width == pixmaps[i].width,
        images(pixmaps)[i].height == pixmaps[i].height,
        images(pixmaps)[i].data == pixmaps[i].data@,
{
}

/// Pictures are countable exactly where no width times height exceeds a `u32`.
pub proof fn countable_is_about_width_times_height(pixmaps: Seq<IconPixmap>)
    ensures
        countable(images(pixmaps)) <==> forall|i: int|
            0 <= i < pixmaps.len() ==> (#[trigger] pixmaps[i]).width * pixmaps[i].height
                <= u32::MAX,
{
    if countable(images(pixmaps)) {
        assert forall|i: int| 0 <= i < pixmaps.len() implies (#[trigger] pixmaps[i]).width
            * pixmaps[i].height <= u32::MAX by {
            assert(images(pixmaps)[i].pixels() <= u32::MAX);
        }
    }
}

/// Among pictures of which one covers at least as much as every other, and more than every one
/// after it, that one is the largest; and only no pictures have no largest.
pub proof fn the_largest_covers_most(images: Seq<Image>, i: int)
    requires
        0 <= i < images.len(),
        forall|j: int|
            0 <= j < images.len() ==> (#[trigger] images[j]).width * images[j].height
                <= images[i].width * images[i].height,
        forall|j: int|
            i < j < images.len() ==> (#[trigger] images[j]).width * images[j].height
                < images[i].width * images[i].height,
    ensures
        largest(images) == Some(images[i]),
        largest(Seq::<Image>::empty()) is None,
{
    assert(largest_at(images, i));
    one_is_largest(images);
}

/// A menu path names a menu unless it is nothing, or nothing but the root.
pub proof fn only_nothing_and_the_root_name_no_menu(menu_path: Seq<char>)
    ensures
        !names_a_menu(menu_path) <==> menu_path.len() == 0 || (menu_path.len() == 1
            && menu_path[0] == '/'),
{
    reveal_strlit("/");
    if menu_path.len() == 1 && menu_path[0] == '/' {
        assert(menu_path =~= "/"@);
    }
}

/// The shared directory is searched last for every item, and before it the item's own, if it has
/// one, and no other.
pub proof fn own_directory_comes_before_the_shared_one(icon_theme_path: Seq<char>)
    ensures
        search_paths(icon_theme_path).last() == "/usr/share/pixmaps"@,
        search_paths(icon_theme_path).drop_last() == (if icon_theme_path.len() == 0 {
            Seq::<Seq<char>>::empty()
        } else {
            seq![icon_theme_path]
        }),
{
    assert(search_paths(icon_theme_path).drop_last() =~= (if icon_theme_path.len() == 0 {
        Seq::<Seq<char>>::empty()
    } else {
        seq![icon_theme_path]
    }));
}

} // verus!
