//! Pictures of tray items: where they come from and how they are prepared for drawing.

use vstd::prelude::*;

use crate::item::{
    countable, countable_is_about_width_times_height, images, largest, search_paths,
    the_largest_covers_most, IconPixmap, Image, Item,
};

verus! {

/// A picture that is kept for drawing.
#[derive(Debug, Clone)]
pub struct CachedIcon {
    pub data: Vec<u8>,
    pub w: u32,
    pub h: u32,
}

impl View for CachedIcon {
    type V = Image;

    open spec fn view(&self) -> Image {
        Image { width: self.w, height: self.h, data: self.data@ }
    }
}

/// A place a picture may come from.
pub enum Source {
    /// A picture that is at hand.
    Pixmap(Image),
    /// An image file.
    File(Seq<char>),
    /// The icon theme's picture of that name, asked for in that size.
    Theme(Seq<char>, u16),
}

/// A place a picture may come from.
#[derive(Debug)]
pub enum IconSource {
    Pixmap(CachedIcon),
    File(String),
    Theme { name: String, size: u16 },
}

impl View for IconSource {
    type V = Source;

    open spec fn view(&self) -> Source {
        match self {
            IconSource::Pixmap(icon) => Source::Pixmap(icon@),
            IconSource::File(path) => Source::File(path@),
            IconSource::Theme { name, size } => Source::Theme(name@, *size),
        }
    }
}

/// The sources of a list.
pub open spec fn sources_of(list: Seq<IconSource>) -> Seq<Source> {
    list.map_values(|s: IconSource| s@)
}

/// The size in which a theme is asked for an icon that is drawn up to `max_h` pixels high:
/// twice that, within 32 and 256.
pub open spec fn theme_size(max_h: u32) -> int {
    if 2 * max_h < 32 {
        32
    } else if 2 * max_h > 256 {
        256
    } else {
        2 * max_h
    }
}

/// The file of an icon in a directory.
pub open spec fn icon_file(dir: Seq<char>, name: Seq<char>) -> Seq<char> {
    dir + "/"@ + name + ".png"@
}

/// Where a picture given by name may come from. No name, no picture; a path is taken as it
/// is; any other name is looked for in the search paths and then in the icon theme.
pub open spec fn named_sources(name: Seq<char>, theme_path: Seq<char>, max_h: u32) -> Seq<Source> {
    if name.len() == 0 {
        seq![]
    } else if name[0] == '/' {
        seq![Source::File(name)]
    } else {
        search_paths(theme_path).map_values(
            |dir: Seq<char>| Source::File(icon_file(dir, name)),
        ).push(Source::Theme(name, theme_size(max_h) as u16))
    }
}

/// Where the regular picture of an item may come from: the largest picture that it sent
/// along, or, where there is none, the name.
pub open spec fn regular_sources(item: Item, max_h: u32) -> Seq<Source> {
    match largest(images(item.icon_pixmaps@)) {
        Some(image) => seq![Source::Pixmap(image)],
        None => named_sources(item.icon_name@, item.icon_theme_path@, max_h),
    }
}

/// Whether an item asks for attention.
pub open spec fn needs_attention(item: Item) -> bool {
    item.status@ == "NeedsAttention"@
}

/// Where the picture of an item may come from, in the order in which the places are tried.
/// An item that asks for attention is shown by its pictures and its name for that, and, where
/// these give nothing, by the regular ones.
pub open spec fn icon_sources(item: Item, max_h: u32) -> Seq<Source> {
    if !needs_attention(item) {
        regular_sources(item, max_h)
    } else {
        match largest(images(item.attention_icon_pixmaps@)) {
            Some(image) => seq![Source::Pixmap(image)],
            None => named_sources(item.attention_icon_name@, item.icon_theme_path@, max_h)
                + regular_sources(item, max_h),
        }
    }
}

/// Where the picture for attention may come from by its name, for an item that asks for
/// attention and sent no picture for that along.
pub open spec fn attention_names(item: Item, max_h: u32) -> Seq<Source> {
    if needs_attention(item) && item.attention_icon_pixmaps@.len() == 0 {
        named_sources(item.attention_icon_name@, item.icon_theme_path@, max_h)
    } else {
        seq![]
    }
}

/// The pictures among which the largest is chosen before any place is tried can have their
/// pixels counted.
pub open spec fn choosable(item: Item) -> bool {
    let attention = images(item.attention_icon_pixmaps@);
    &&& needs_attention(item) ==> countable(attention)
    &&& needs_attention(item) && (attention.len() > 0 || item.attention_icon_name@.len() > 0)
        || countable(images(item.icon_pixmaps@))
}

/// What the places tried in turn give, where `world` says what each of them holds.
pub open spec fn found(sources: Seq<Source>, world: spec_fn(Source) -> Option<Image>) -> Option<
    Image,
>
    decreases sources.len(),
{
    if sources.len() == 0 {
        None
    } else {
        match holds(sources[0], world) {
            Some(image) => Some(image),
            None => found(sources.drop_first(), world),
        }
    }
}

/// What a place holds: a picture at hand holds itself.
pub open spec fn holds(source: Source, world: spec_fn(Source) -> Option<Image>) -> Option<Image> {
    match source {
        Source::Pixmap(image) => Some(image),
        _ => world(source),
    }
}

/// What comes next in the search for a picture.
pub enum Step {
    /// The search is over.
    Done(Option<Image>),
    /// The place has to be tried.
    Try(Source),
}

/// What to do next.
#[derive(Debug)]
pub enum IconStep {
    /// The search is over; this is the picture, if there is one.
    Done(Option<CachedIcon>),
    /// Load this image file.
    Load(String),
    /// Look this name up in the icon theme, in this size, and load what is found.
    Lookup { name: String, size: u16 },
}

impl View for IconStep {
    type V = Step;

    open spec fn view(&self) -> Step {
        match self {
            IconStep::Done(Some(icon)) => Step::Done(Some(icon@)),
            IconStep::Done(None) => Step::Done(None),
            IconStep::Load(path) => Step::Try(Source::File(path@)),
            IconStep::Lookup { name, size } => Step::Try(Source::Theme(name@, *size)),
        }
    }
}

/// What comes next when these places are left.
pub open spec fn next_step(sources: Seq<Source>) -> Step {
    if sources.len() == 0 {
        Step::Done(None)
    } else {
        match sources[0] {
            Source::Pixmap(image) => Step::Done(Some(image)),
            _ => Step::Try(sources[0]),
        }
    }
}

/// The places that are left once the next step is taken.
pub open spec fn after_step(sources: Seq<Source>) -> Seq<Source> {
    if next_step(sources) is Done {
        seq![]
    } else {
        sources.drop_first()
    }
}

/// A search for the picture of an item.
#[derive(Debug)]
pub struct IconSearch<'a> {
    left: Vec<IconSource>,
    /// The item whose regular picture is looked for once nothing is left, and how high it is drawn.
    regular: Option<(&'a Item, u32)>,
}

impl<'a> View for IconSearch<'a> {
    type V = Seq<Source>;

    /// The places that have not been tried yet.
    closed spec fn view(&self) -> Seq<Source> {
        match self.regular {
            Some((item, max_h)) => sources_of(self.left@) + regular_sources(*item, max_h),
            None => sources_of(self.left@),
        }
    }
}

/// Twice `max_h`, within 32 and 256.
pub fn request_size(max_h: u32) -> (r: u16)
    ensures
        r == theme_size(max_h),
{
    if max_h < 16 {
        32
    } else if max_h > 128 {
        256
    } else {
        (max_h * 2) as u16
    }
}

/// Where a picture given by name may come from.
pub fn resolve_icon_name(name: &str, item: &Item, max_h: u32) -> (r: Vec<IconSource>)
    ensures
        sources_of(r@) == named_sources(name@, item.icon_theme_path@, max_h),
{
    let mut r: Vec<IconSource> = Vec::new();
    if name.is_empty() {
        assert(sources_of(r@) =~= seq![]);
        return r;
    }
    if name.get_char(0) == '/' {
        r.push(IconSource::File(name.to_owned()));
        assert(sources_of(r@) =~= seq![Source::File(name@)]);
        return r;
    }
    let paths: Vec<String> = item.icon_search_paths();
    let ghost dirs = search_paths(item.icon_theme_path@);
    let ghost files = dirs.map_values(|dir: Seq<char>| Source::File(icon_file(dir, name@)));
    assert(dirs == paths@.map_values(|p: String| p@));
    for k in 0..paths.len()
        invariant
            dirs == paths@.map_values(|p: String| p@),
            files == dirs.map_values(|dir: Seq<char>| Source::File(icon_file(dir, name@))),
            sources_of(r@) == files.take(k as int),
    {
        let file: String = paths[k].clone().concat("/").concat(name).concat(".png");
        assert(dirs[k as int] == paths@[k as int]@);
        assert(file@ == icon_file(dirs[k as int], name@));
        let ghost before = sources_of(r@);
        r.push(IconSource::File(file));
        assert(sources_of(r@) =~= before.push(files[k as int]));
        assert(files.take(k + 1) =~= before.push(files[k as int]));
    }
    let size: u16 = request_size(max_h);
    assert(files.take(paths@.len() as int) =~= files);
    r.push(IconSource::Theme { name: name.to_owned(), size });
    assert(sources_of(r@) =~= files.push(Source::Theme(name@, size)));
    r
}

/// A picture that a tray item sent along, for keeping.
pub fn keep(pixmap: IconPixmap) -> (r: CachedIcon)
    ensures
        r@ == pixmap@,
        r.w == pixmap.width,
        r.h == pixmap.height,
        r.data == pixmap.data,
{
    CachedIcon { data: pixmap.data, w: pixmap.width, h: pixmap.height }
}

/// Whether every picture's pixels can be counted in a `u32`.
fn is_countable(pixmaps: &Vec<IconPixmap>) -> (r: bool)
    ensures
        r == countable(images(pixmaps@)),
{
    for i in 0..pixmaps.len()
        invariant
            forall|j: int| 0 <= j < i ==> (#[trigger] images(pixmaps@)[j]).pixels() <= u32::MAX,
    {
        let p: &IconPixmap = &pixmaps[i];
        assert(images(pixmaps@)[i as int] == p@);
        if p.width.checked_mul(p.height).is_none() {
            return false;
        }
    }
    true
}

/// Whether the search for an item's picture can be started.
pub fn is_choosable(item: &Item) -> (r: bool)
    ensures
        r == choosable(*item),
{
    let attention: bool = item.status == "NeedsAttention".to_owned();
    let ready: bool = !attention || is_countable(&item.attention_icon_pixmaps);
    let hidden: bool = attention && (item.attention_icon_pixmaps.len() > 0
        || !item.attention_icon_name.as_str().is_empty());
    ready && (hidden || is_countable(&item.icon_pixmaps))
}

/// Where the regular picture of an item may come from.
fn regular_icon(item: &Item, max_h: u32) -> (r: Vec<IconSource>)
    requires
        countable(images(item.icon_pixmaps@)),
    ensures
        sources_of(r@) == regular_sources(*item, max_h),
{
    match item.best_icon_pixmap() {
        Some(best) => {
            let mut r: Vec<IconSource> = Vec::new();
            let ghost image = best@;
            r.push(IconSource::Pixmap(keep(best)));
            assert(sources_of(r@) =~= seq![Source::Pixmap(image)]);
            r
        },
        None => resolve_icon_name(item.icon_name.as_str(), item, max_h),
    }
}

/// Starts the search for the picture of an item that is drawn up to `max_h` pixels high.
///
/// Each step names one place to try; what it gave is handed to [`IconSearch::answer`].
pub fn resolve_icon<'a>(item: &'a Item, max_h: u32) -> (r: (IconSearch<'a>, IconStep))
    requires
        choosable(*item),
    ensures
        r.1@ == next_step(icon_sources(*item, max_h)),
        r.0@ == after_step(icon_sources(*item, max_h)),
        attention_names(*item, max_h).len() > 0 ==> {
            &&& r.0.places() == attention_names(*item, max_h).len() - 1
            &&& r.0.pending() == images(item.icon_pixmaps@)
        },
        attention_names(*item, max_h).len() == 0 ==> {
            &&& r.0.places() == r.0@.len()
            &&& r.0.pending().len() == 0
        },
{
    let attention: bool = item.status == "NeedsAttention".to_owned();
    let mut search: IconSearch<'a> = if attention {
        match item.best_attention_icon_pixmap() {
            Some(best) => {
                let mut left: Vec<IconSource> = Vec::new();
                let ghost image = best@;
                left.push(IconSource::Pixmap(keep(best)));
                assert(sources_of(left@) =~= seq![Source::Pixmap(image)]);
                IconSearch { left, regular: None }
            },
            None => {
                let left: Vec<IconSource> = resolve_icon_name(
                    item.attention_icon_name.as_str(),
                    item,
                    max_h,
                );
                IconSearch { left, regular: Some((item, max_h)) }
            },
        }
    } else {
        IconSearch { left: regular_icon(item, max_h), regular: None }
    };
    let step: IconStep = search.step();
    (search, step)
}

impl<'a> IconSearch<'a> {
    /// How many places are tried before the regular pictures of an item that asks for attention
    /// are looked at.
    pub closed spec fn places(self) -> nat {
        self.left@.len()
    }

    /// The regular pictures of an item that asks for attention, while they have not been looked
    /// at.
    pub closed spec fn pending(self) -> Seq<Image> {
        match self.regular {
            Some((item, _)) => images(item.icon_pixmaps@),
            None => seq![],
        }
    }

    /// Where the next step is to choose the largest of some pictures, their pixels can be counted.
    pub open spec fn ready(self) -> bool {
        self.places() > 0 || countable(self.pending())
    }

    /// A search that finds nothing is stopped only where no place is left before the regular
    /// pictures, and one of these is too large to count.
    pub proof fn what_stops_it(self)
        ensures
            !self.ready() <==> self.places() == 0 && exists|i: int|
                0 <= i < self.pending().len() && (#[trigger] self.pending()[i]).width
                    * self.pending()[i].height > u32::MAX,
    {
        if !self.ready() {
            let i = choose|i: int|
                0 <= i < self.pending().len() && (#[trigger] self.pending()[i]).pixels()
                    > u32::MAX;
            assert(self.pending()[i].width * self.pending()[i].height > u32::MAX);
        }
    }

    /// Whether the search can go on when the place that was tried last has given nothing.
    pub fn is_ready(&self) -> (r: bool)
        ensures
            r == self.ready(),
    {
        self.left.len() > 0 || match self.regular {
            Some((item, _)) => is_countable(&item.icon_pixmaps),
            None => true,
        }
    }

    /// The next place to try, or the end of the search.
    fn step(&mut self) -> (r: IconStep)
        requires
            old(self).ready(),
        ensures
            r@ == next_step(old(self)@),
            final(self)@ == after_step(old(self)@),
            old(self).places() > 0 && !(r is Done) ==> {
                &&& final(self).places() == old(self).places() - 1
                &&& final(self).pending() == old(self).pending()
            },
            old(self).places() == 0 || r is Done ==> {
                &&& final(self).places() == final(self)@.len()
                &&& final(self).pending().len() == 0
            },
    {
        let ghost before = self@;
        if self.left.len() == 0 {
            if let Some((item, max_h)) = self.regular {
                self.left = regular_icon(item, max_h);
                self.regular = None;
            }
            assert(self@ =~= before);
        }
        if self.left.len() == 0 {
            assert(self@ =~= seq![]);
            return IconStep::Done(None);
        }
        let source: IconSource = self.left.remove(0);
        assert(source@ == before[0]);
        assert(self@ =~= before.drop_first());
        match source {
            IconSource::Pixmap(icon) => {
                self.left = Vec::new();
                self.regular = None;
                assert(self@ =~= seq![]);
                IconStep::Done(Some(icon))
            },
            IconSource::File(path) => IconStep::Load(path),
            IconSource::Theme { name, size } => IconStep::Lookup { name, size },
        }
    }

    /// Goes on with what the place that was tried last has given.
    pub fn answer(&mut self, image: Option<CachedIcon>) -> (r: IconStep)
        requires
            image is None ==> old(self).ready(),
        ensures
            match image {
                Some(icon) => r == IconStep::Done(Some(icon)) && final(self)@.len() == 0,
                None => r@ == next_step(old(self)@) && final(self)@ == after_step(old(self)@),
            },
            old(self).places() > 0 && !(r is Done) ==> {
                &&& final(self).places() == old(self).places() - 1
                &&& final(self).pending() == old(self).pending()
            },
            old(self).places() == 0 || r is Done ==> {
                &&& final(self).places() == final(self)@.len()
                &&& final(self).pending().len() == 0
            },
    {
        match image {
            Some(icon) => {
                self.left = Vec::new();
                self.regular = None;
                IconStep::Done(Some(icon))
            },
            None => self.step(),
        }
    }
}

/// A search that goes step by step, and hands each answer on, ends with what the places
/// tried in turn give.
pub proof fn stepping_finds(sources: Seq<Source>, world: spec_fn(Source) -> Option<Image>)
    ensures
        match next_step(sources) {
            Step::Done(image) => found(sources, world) == image,
            Step::Try(source) => found(sources, world) == match world(source) {
                Some(image) => Some(image),
                None => found(after_step(sources), world),
            },
        },
        next_step(sources) is Try ==> after_step(sources).len() < sources.len(),
{
}

/// The first place that holds a picture decides; where none does, there is no picture.
pub proof fn first_picture_wins(sources: Seq<Source>, world: spec_fn(Source) -> Option<Image>)
    ensures
        match found(sources, world) {
            Some(image) => exists|i: int|
                0 <= i < sources.len() && #[trigger] holds(sources[i], world) == Some(image) && (
                forall|j: int| 0 <= j < i ==> #[trigger] holds(sources[j], world) is None),
            None => forall|i: int|
                0 <= i < sources.len() ==> #[trigger] holds(sources[i], world) is None,
        },
    decreases sources.len(),
{
    if sources.len() > 0 && holds(sources[0], world) is None {
        let rest = sources.drop_first();
        first_picture_wins(rest, world);
        match found(rest, world) {
            Some(image) => {
                let i = choose|i: int|
                    0 <= i < rest.len() && #[trigger] holds(rest[i], world) == Some(image) && (
                    forall|j: int| 0 <= j < i ==> #[trigger] holds(rest[j], world) is None);
                assert(holds(sources[i + 1], world) == Some(image));
                assert forall|j: int| 0 <= j < i + 1 implies #[trigger] holds(
                    sources[j],
                    world,
                ) is None by {
                    if j > 0 {
                        assert(rest[j - 1] == sources[j]);
                        assert(holds(rest[j - 1], world) is None);
                    }
                }
            },
            None => {
                assert forall|i: int| 0 <= i < sources.len() implies #[trigger] holds(
                    sources[i],
                    world,
                ) is None by {
                    if i > 0 {
                        assert(rest[i - 1] == sources[i]);
                        assert(holds(rest[i - 1], world) is None);
                    }
                }
            },
        }
    } else if sources.len() > 0 {
        assert(holds(sources[0], world) == found(sources, world));
    }
}

/// An item that asks for attention, but whose picture for that is nowhere to be found, is
/// shown by its regular picture.
pub proof fn attention_falls_back(
    item: Item,
    max_h: u32,
    world: spec_fn(Source) -> Option<Image>,
)
    requires
        needs_attention(item),
        item.attention_icon_pixmaps@.len() == 0,
        found(
            named_sources(item.attention_icon_name@, item.icon_theme_path@, max_h),
            world,
        ) is None,
    ensures
        found(icon_sources(item, max_h), world) == found(regular_sources(item, max_h), world),
{
    found_in_two_parts(
        named_sources(item.attention_icon_name@, item.icon_theme_path@, max_h),
        regular_sources(item, max_h),
        world,
    );
}

/// An item that asks for attention and has a picture for that is shown by it, whatever its
/// regular picture is.
pub proof fn attention_comes_first(
    item: Item,
    max_h: u32,
    world: spec_fn(Source) -> Option<Image>,
)
    requires
        needs_attention(item),
    ensures
        item.attention_icon_pixmaps@.len() > 0 ==> found(icon_sources(item, max_h), world)
            == largest(images(item.attention_icon_pixmaps@)),
        item.attention_icon_pixmaps@.len() == 0 ==> ({
            let named = found(
                named_sources(item.attention_icon_name@, item.icon_theme_path@, max_h),
                world,
            );
            named is Some ==> found(icon_sources(item, max_h), world) == named
        }),
{
    found_in_two_parts(
        named_sources(item.attention_icon_name@, item.icon_theme_path@, max_h),
        regular_sources(item, max_h),
        world,
    );
}

/// Pictures that an item sent along are preferred to its icon's name: the largest is shown,
/// and no file is read.
pub proof fn pixmaps_come_before_names(
    item: Item,
    max_h: u32,
    world: spec_fn(Source) -> Option<Image>,
)
    requires
        !needs_attention(item),
        item.icon_pixmaps@.len() > 0,
    ensures
        next_step(icon_sources(item, max_h)) == Step::Done(largest(images(item.icon_pixmaps@))),
        found(icon_sources(item, max_h), world) == largest(images(item.icon_pixmaps@)),
{
}

/// An item that does not ask for attention is shown the same whatever its pictures and its
/// name for attention are.
pub proof fn attention_icon_is_for_attention(a: Item, b: Item, max_h: u32)
    requires
        !needs_attention(a),
        !needs_attention(b),
        a.icon_pixmaps@ == b.icon_pixmaps@,
        a.icon_name@ == b.icon_name@,
        a.icon_theme_path@ == b.icon_theme_path@,
    ensures
        icon_sources(a, max_h) == icon_sources(b, max_h),
{
}

/// The same place, if the size in which a theme is asked is left aside.
pub open spec fn same_place(a: Source, b: Source) -> bool {
    match (a, b) {
        (Source::Theme(x, _), Source::Theme(y, _)) => x == y,
        _ => a == b,
    }
}

/// The height up to which a picture is drawn decides nothing but the size in which the icon
/// theme is asked for it, and that is never below 32 or above 256.
pub proof fn height_only_sizes_the_theme(item: Item, a: u32, b: u32)
    ensures
        icon_sources(item, a).len() == icon_sources(item, b).len(),
        forall|i: int|
            0 <= i < icon_sources(item, a).len() ==> same_place(
                #[trigger] icon_sources(item, a)[i],
                icon_sources(item, b)[i],
            ),
        32 <= theme_size(a) <= 256,
{
    names_have_the_same_places(item.icon_name@, item.icon_theme_path@, a, b);
    names_have_the_same_places(item.attention_icon_name@, item.icon_theme_path@, a, b);
}

proof fn names_have_the_same_places(name: Seq<char>, theme_path: Seq<char>, a: u32, b: u32)
    ensures
        named_sources(name, theme_path, a).len() == named_sources(name, theme_path, b).len(),
        forall|i: int|
            0 <= i < named_sources(name, theme_path, a).len() ==> same_place(
                #[trigger] named_sources(name, theme_path, a)[i],
                named_sources(name, theme_path, b)[i],
            ),
{
}

proof fn found_in_two_parts(
    a: Seq<Source>,
    b: Seq<Source>,
    world: spec_fn(Source) -> Option<Image>,
)
    ensures
        found(a + b, world) == match found(a, world) {
            Some(image) => Some(image),
            None => found(b, world),
        },
    decreases a.len(),
{
    if a.len() == 0 {
        assert(a + b =~= b);
    } else {
        assert((a + b).drop_first() =~= a.drop_first() + b);
        found_in_two_parts(a.drop_first(), b, world);
    }
}

/// The theme is asked for twice the height, as far as that is neither below 32 nor above 256;
/// and more height never makes for a smaller picture.
pub proof fn theme_size_follows_the_height(a: u32, b: u32)
    ensures
        32 <= theme_size(a) <= 256,
        theme_size(a) > 2 * a ==> theme_size(a) == 32,
        theme_size(a) < 2 * a ==> theme_size(a) == 256,
        a <= b ==> theme_size(a) <= theme_size(b),
{
}

/// The file of an icon is directly in the directory, and is called by the icon's name with the
/// ending of PNG files.
pub proof fn icon_files_are_in_their_directory(dir: Seq<char>, name: Seq<char>)
    ensures
        icon_file(dir, name).len() == dir.len() + name.len() + 5,
        icon_file(dir, name).take(dir.len() as int) == dir,
        icon_file(dir, name)[dir.len() as int] == '/',
        icon_file(dir, name).subrange(dir.len() as int + 1, dir.len() as int + 1 + name.len())
            == name,
        icon_file(dir, name).skip(dir.len() as int + 1 + name.len()) == ".png"@,
{
    reveal_strlit("/");
    reveal_strlit(".png");
    let file = icon_file(dir, name);
    assert(file.take(dir.len() as int) =~= dir);
    assert(file.subrange(dir.len() as int + 1, dir.len() as int + 1 + name.len()) =~= name);
    assert(file.skip(dir.len() as int + 1 + name.len()) =~= ".png"@);
}

/// A picture that is given by no name is nowhere. One that is given by a path is there and
/// nowhere else. One that is given by another name is looked for in the item's own directory, if
/// it has one, in the shared directory, and at last, and nowhere after that, in the theme.
pub proof fn where_names_are_looked_for(name: Seq<char>, theme_path: Seq<char>, max_h: u32)
    ensures
        name.len() == 0 ==> named_sources(name, theme_path, max_h).len() == 0,
        name.len() > 0 && name[0] == '/' ==> {
            &&& named_sources(name, theme_path, max_h).len() == 1
            &&& named_sources(name, theme_path, max_h)[0] == Source::File(name)
        },
        name.len() > 0 && name[0] != '/' ==> {
            let places = named_sources(name, theme_path, max_h);
            let own: int = if theme_path.len() > 0 { 1 } else { 0 };
            &&& places.len() == own + 2
            &&& own == 1 ==> places[0] == Source::File(theme_path + "/"@ + name + ".png"@)
            &&& places[own] == Source::File("/usr/share/pixmaps"@ + "/"@ + name + ".png"@)
            &&& places[own + 1] is Theme
            &&& places[own + 1]->Theme_0 == name
            &&& places[own + 1]->Theme_1 == theme_size(max_h)
        },
{
}

/// The regular picture of an item with pictures is the one that covers most, the last where
/// several do, and no name is looked for; that of an item without is looked for by its name.
pub proof fn regular_places_of_an_item(item: Item, max_h: u32, i: int)
    ensures
        0 <= i < item.icon_pixmaps@.len() && (forall|j: int|
            0 <= j < item.icon_pixmaps@.len() ==> (#[trigger] item.icon_pixmaps@[j]).width
                * item.icon_pixmaps@[j].height <= item.icon_pixmaps@[i].width
                * item.icon_pixmaps@[i].height) && (forall|j: int|
            i < j < item.icon_pixmaps@.len() ==> (#[trigger] item.icon_pixmaps@[j]).width
                * item.icon_pixmaps@[j].height < item.icon_pixmaps@[i].width
                * item.icon_pixmaps@[i].height) ==> {
            &&& regular_sources(item, max_h).len() == 1
            &&& regular_sources(item, max_h)[0] == Source::Pixmap(
                Image {
                    width: item.icon_pixmaps@[i].width,
                    height: item.icon_pixmaps@[i].height,
                    data: item.icon_pixmaps@[i].data@,
                },
            )
        },
        item.icon_pixmaps@.len() == 0 ==> regular_sources(item, max_h) == named_sources(
            item.icon_name@,
            item.icon_theme_path@,
            max_h,
        ),
{
    if 0 <= i < item.icon_pixmaps@.len() && (forall|j: int|
        0 <= j < item.icon_pixmaps@.len() ==> (#[trigger] item.icon_pixmaps@[j]).width
            * item.icon_pixmaps@[j].height <= item.icon_pixmaps@[i].width
            * item.icon_pixmaps@[i].height) && (forall|j: int|
        i < j < item.icon_pixmaps@.len() ==> (#[trigger] item.icon_pixmaps@[j]).width
            * item.icon_pixmaps@[j].height < item.icon_pixmaps@[i].width
            * item.icon_pixmaps@[i].height) {
        most_covering(item.icon_pixmaps@, i);
    }
}

/// The pixmap that covers most gives the largest picture.
proof fn most_covering(pixmaps: Seq<IconPixmap>, i: int)
    requires
        0 <= i < pixmaps.len(),
        forall|j: int|
            0 <= j < pixmaps.len() ==> (#[trigger] pixmaps[j]).width * pixmaps[j].height
                <= pixmaps[i].width * pixmaps[i].height,
        forall|j: int|
            i < j < pixmaps.len() ==> (#[trigger] pixmaps[j]).width * pixmaps[j].height
                < pixmaps[i].width * pixmaps[i].height,
    ensures
        largest(images(pixmaps)) == Some(
            Image {
                width: pixmaps[i].width,
                height: pixmaps[i].height,
                data: pixmaps[i].data@,
            },
        ),
{
    let list = images(pixmaps);
    assert forall|j: int| 0 <= j < list.len() implies (#[trigger] list[j]).width * list[j].height
        <= list[i].width * list[i].height by {
        assert(pixmaps[j].width * pixmaps[j].height <= pixmaps[i].width * pixmaps[i].height);
    }
    assert forall|j: int| i < j < list.len() implies (#[trigger] list[j]).width * list[j].height
        < list[i].width * list[i].height by {
        assert(pixmaps[j].width * pixmaps[j].height < pixmaps[i].width * pixmaps[i].height);
    }
    the_largest_covers_most(list, i);
}

/// The regular places of an item depend on its regular pictures, its icon's name and its own
/// directory, and on nothing else: neither on its status nor on its pictures for attention.
pub proof fn regular_places_ignore_the_status(a: Item, b: Item, max_h: u32)
    requires
        a.icon_pixmaps@ == b.icon_pixmaps@,
        a.icon_name@ == b.icon_name@,
        a.icon_theme_path@ == b.icon_theme_path@,
    ensures
        regular_sources(a, max_h) == regular_sources(b, max_h),
{
}

/// An item of any other status is looked for in its regular places. One that asks for attention
/// and has a picture for that at hand is not looked for at all. And one that has none is first
/// looked for by its name for attention, and then wherever the same item would be looked for if
/// it did not ask for attention.
pub proof fn asking_for_attention_only_adds_places(a: Item, b: Item, max_h: u32, i: int)
    requires
        a.status@ == "NeedsAttention"@,
        b.status@ != "NeedsAttention"@,
        a.icon_pixmaps@ == b.icon_pixmaps@,
        a.icon_name@ == b.icon_name@,
        a.icon_theme_path@ == b.icon_theme_path@,
    ensures
        icon_sources(b, max_h) == regular_sources(b, max_h),
        a.attention_icon_pixmaps@.len() == 0 ==> icon_sources(a, max_h) == named_sources(
            a.attention_icon_name@,
            a.icon_theme_path@,
            max_h,
        ) + icon_sources(b, max_h),
        a.attention_icon_pixmaps@.len() == 0 && a.attention_icon_name@.len() == 0 ==> icon_sources(
            a,
            max_h,
        ) == icon_sources(b, max_h),
        0 <= i < a.attention_icon_pixmaps@.len() && (forall|j: int|
            0 <= j < a.attention_icon_pixmaps@.len() ==> (
            #[trigger] a.attention_icon_pixmaps@[j]).width * a.attention_icon_pixmaps@[j].height
                <= a.attention_icon_pixmaps@[i].width * a.attention_icon_pixmaps@[i].height) && (
        forall|j: int|
            i < j < a.attention_icon_pixmaps@.len() ==> (
            #[trigger] a.attention_icon_pixmaps@[j]).width * a.attention_icon_pixmaps@[j].height
                < a.attention_icon_pixmaps@[i].width * a.attention_icon_pixmaps@[i].height) ==> {
            &&& icon_sources(a, max_h).len() == 1
            &&& icon_sources(a, max_h)[0] == Source::Pixmap(
                Image {
                    width: a.attention_icon_pixmaps@[i].width,
                    height: a.attention_icon_pixmaps@[i].height,
                    data: a.attention_icon_pixmaps@[i].data@,
                },
            )
        },
{
    if a.attention_icon_pixmaps@.len() == 0 && a.attention_icon_name@.len() == 0 {
        assert(icon_sources(a, max_h) =~= icon_sources(b, max_h));
    }
    if 0 <= i < a.attention_icon_pixmaps@.len() && (forall|j: int|
        0 <= j < a.attention_icon_pixmaps@.len() ==> (#[trigger] a.attention_icon_pixmaps@[j]).width
            * a.attention_icon_pixmaps@[j].height <= a.attention_icon_pixmaps@[i].width
            * a.attention_icon_pixmaps@[i].height) && (forall|j: int|
        i < j < a.attention_icon_pixmaps@.len() ==> (#[trigger] a.attention_icon_pixmaps@[j]).width
            * a.attention_icon_pixmaps@[j].height < a.attention_icon_pixmaps@[i].width
            * a.attention_icon_pixmaps@[i].height) {
        most_covering(a.attention_icon_pixmaps@, i);
    }
}

/// A search tries the first place that is left, unless that is a picture at hand, with which it
/// ends; and each place but the first is still left after that.
pub proof fn places_are_tried_in_turn(sources: Seq<Source>)
    ensures
        sources.len() == 0 ==> next_step(sources) == Step::Done(None),
        sources.len() > 0 && sources[0] is Pixmap ==> next_step(sources) == Step::Done(
            Some(sources[0]->Pixmap_0),
        ),
        sources.len() > 0 && !(sources[0] is Pixmap) ==> {
            &&& next_step(sources) == Step::Try(sources[0])
            &&& sources == seq![sources[0]] + after_step(sources)
        },
        sources.len() == 0 || sources[0] is Pixmap ==> after_step(sources).len() == 0,
{
    if sources.len() > 0 && !(sources[0] is Pixmap) {
        assert(sources =~= seq![sources[0]] + after_step(sources));
    }
}

/// The first place that has a picture gives it, where a picture at hand is had.
pub proof fn the_first_that_has_one_gives_it(
    sources: Seq<Source>,
    world: spec_fn(Source) -> Option<Image>,
    i: int,
)
    requires
        0 <= i < sources.len(),
        forall|j: int|
            0 <= j < i ==> !((#[trigger] sources[j]) is Pixmap) && world(sources[j]) is None,
    ensures
        sources[i] is Pixmap ==> found(sources, world) == Some(sources[i]->Pixmap_0),
        !(sources[i] is Pixmap) && world(sources[i]) is Some ==> found(sources, world) == world(
            sources[i],
        ),
    decreases i,
{
    if i > 0 {
        let rest = sources.drop_first();
        assert(!(sources[0] is Pixmap) && world(sources[0]) is None);
        assert forall|j: int| 0 <= j < i - 1 implies !((#[trigger] rest[j]) is Pixmap) && world(
            rest[j],
        ) is None by {
            assert(rest[j] == sources[j + 1]);
        }
        the_first_that_has_one_gives_it(rest, world, i - 1);
    }
}

/// A step and a place say what they hold, and a kept picture is its size and its bytes.
pub proof fn steps_say_what_they_hold(icon: CachedIcon, text: String, size: u16)
    ensures
        icon@.width == icon.w && icon@.height == icon.h && icon@.data == icon.data@,
        IconStep::Done(Some(icon))@ == Step::Done(
            Some(Image { width: icon.w, height: icon.h, data: icon.data@ }),
        ),
        IconStep::Done(None)@ == Step::Done(None),
        IconStep::Load(text)@ == Step::Try(Source::File(text@)),
        (IconStep::Lookup { name: text, size })@ == Step::Try(Source::Theme(text@, size)),
        IconSource::Pixmap(icon)@ == Source::Pixmap(
            Image { width: icon.w, height: icon.h, data: icon.data@ },
        ),
        IconSource::File(text)@ == Source::File(text@),
        (IconSource::Theme { name: text, size })@ == Source::Theme(text@, size),
{
}

/// The places of a list are those of its parts, one for one.
pub proof fn places_are_those_of_the_list(list: Seq<IconSource>, i: int)
    requires
        0 <= i < list.len(),
    ensures
        sources_of(list).len() == list.len(),
        sources_of(list)[i] == list[i]@,
{
}

/// A search can be started unless it has to choose at once among pictures of which one is too
/// large to count: those for attention of an item that asks for it, or the regular ones of an
/// item that does not, or that has neither pictures nor a name for that.
pub proof fn what_stops_a_search(item: Item)
    ensures
        choosable(item) <==> {
            &&& item.status@ == "NeedsAttention"@ ==> forall|i: int|
                0 <= i < item.attention_icon_pixmaps@.len() ==> (
                #[trigger] item.attention_icon_pixmaps@[i]).width
                    * item.attention_icon_pixmaps@[i].height <= u32::MAX
            &&& item.status@ != "NeedsAttention"@ || (item.attention_icon_pixmaps@.len() == 0
                && item.attention_icon_name@.len() == 0) ==> forall|i: int|
                0 <= i < item.icon_pixmaps@.len() ==> (#[trigger] item.icon_pixmaps@[i]).width
                    * item.icon_pixmaps@[i].height <= u32::MAX
        },
{
    countable_is_about_width_times_height(item.attention_icon_pixmaps@);
    countable_is_about_width_times_height(item.icon_pixmaps@);
}

/// The places that are tried for attention alone are those of the name for it, for an item that
/// asks for attention without a picture for that.
pub proof fn attention_has_places_only_by_name(item: Item, max_h: u32)
    ensures
        attention_names(item, max_h).len() > 0 <==> item.status@ == "NeedsAttention"@
            && item.attention_icon_pixmaps@.len() == 0 && item.attention_icon_name@.len() > 0,
        attention_names(item, max_h).len() > 0 ==> attention_names(item, max_h)
            == named_sources(item.attention_icon_name@, item.icon_theme_path@, max_h),
{
}

} // verus!
