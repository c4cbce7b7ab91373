//! Menus that are fetched from the tray host level by level and shown with rofi.

use vstd::prelude::*;

use crate::menu::{
    a_label_stands_for_the_first_visible_entry, answers_to, find_label, first_labelled,
    first_labelled_is_first, has_entries, menu_input, menu_text, offers_something, text_of,
    walk_result, what_is_offered, Launch, MenuNode,
};

verus! {

/// What comes next.
pub enum Ask {
    Done,
    Fetch(Option<u32>),
    Show(Seq<Seq<char>>, Seq<char>),
    Activate(u32),
}

/// What to do next.
#[derive(Debug)]
pub enum MenuStep {
    /// There is nothing more to do.
    Done,
    /// Fetch the entries of this submenu, or of the whole menu, and hand them to
    /// [`MenuLoop::fetched`].
    Fetch(Option<u32>),
    /// Run this program with this input, and hand what was picked to [`MenuLoop::picked`].
    Show { launch: Launch, input: String },
    /// Activate this entry; then there is nothing more to do.
    Activate(u32),
}

impl View for MenuStep {
    type V = Ask;

    open spec fn view(&self) -> Ask {
        match self {
            MenuStep::Done => Ask::Done,
            MenuStep::Fetch(submenu) => Ask::Fetch(*submenu),
            MenuStep::Show { launch, input } => Ask::Show(launch@, input@),
            MenuStep::Activate(entry) => Ask::Activate(*entry),
        }
    }
}

/// The program that shows a menu, and its arguments.
pub open spec fn rofi_command() -> Seq<Seq<char>> {
    seq!["rofi"@, "-dmenu"@, "-p"@, "Tray"@, "-theme-str"@, "listview { lines: 15; }"@]
}

/// The `u32` with the bits of the `i32` `n`.
pub open spec fn as_unsigned(n: i32) -> int {
    if n >= 0 {
        n as int
    } else {
        n + 0x1_0000_0000
    }
}

/// What comes next when a level of the menu has these entries.
pub open spec fn ask_menu(entries: Seq<MenuNode>) -> Ask {
    if offers_something(entries) {
        Ask::Show(rofi_command(), menu_text(entries))
    } else {
        Ask::Done
    }
}

/// What comes next when this was picked among these entries: a submenu is fetched, any other
/// entry is activated, and where nothing was picked, or nothing that is offered, that is all.
pub open spec fn ask_picked(entries: Seq<MenuNode>, label: Option<Seq<char>>) -> Ask {
    match label {
        None => Ask::Done,
        Some(label) => match first_labelled(entries, label) {
            None => Ask::Done,
            Some(node) => if node.is_submenu {
                Ask::Fetch(Some(as_unsigned(node.id) as u32))
            } else {
                Ask::Activate(as_unsigned(node.id) as u32)
            },
        },
    }
}

/// A walk through a menu.
pub struct MenuLoop {
    entries: Vec<MenuNode>,
}

/// The id of a menu entry as the tray host takes it.
fn entry_id(id: i32) -> (r: u32)
    ensures
        r == as_unsigned(id),
{
    assert(id >= 0i32 ==> (id as u32) as int == id as int) by (bit_vector);
    assert(id < 0i32 ==> (id as u32) as int == id as int + 0x1_0000_0000int) by (bit_vector);
    id as u32
}

/// The program that shows a menu.
pub fn rofi() -> (r: Launch)
    ensures
        r@ == rofi_command(),
{
    let mut args: Vec<String> = Vec::new();
    args.push("-dmenu".to_owned());
    args.push("-p".to_owned());
    args.push("Tray".to_owned());
    args.push("-theme-str".to_owned());
    args.push("listview { lines: 15; }".to_owned());
    let launch = Launch { program: "rofi".to_owned(), args };
    assert(launch@ =~= rofi_command());
    launch
}

impl MenuLoop {
    /// The entries that were offered last.
    pub closed spec fn entries(self) -> Seq<MenuNode> {
        self.entries@
    }

    /// Starts at the top of a menu.
    pub fn new() -> (r: (MenuLoop, MenuStep))
        ensures
            r.0.entries().len() == 0,
            r.1@ == Ask::Fetch(None),
    {
        (MenuLoop { entries: Vec::new() }, MenuStep::Fetch(None))
    }

    /// The entries that were offered last.
    pub fn offered(&self) -> (r: &Vec<MenuNode>)
        ensures
            r@ == self.entries(),
    {
        &self.entries
    }

    /// Goes on with the entries that were fetched. Where they could not be had, the walk has
    /// failed with that error, and there is nothing more to do.
    pub fn fetched<E>(&mut self, entries: Result<Vec<MenuNode>, E>) -> (r: Result<MenuStep, E>)
        ensures
            match entries {
                Ok(entries) => {
                    &&& r is Ok
                    &&& r->Ok_0@ == ask_menu(entries@)
                    &&& final(self).entries() == entries@
                },
                Err(error) => {
                    &&& r == Err::<MenuStep, E>(error)
                    &&& final(self).entries() == old(self).entries()
                },
            },
    {
        match entries {
            Ok(entries) => {
                self.entries = entries;
                if has_entries(&self.entries) {
                    Ok(MenuStep::Show { launch: rofi(), input: menu_input(&self.entries) })
                } else {
                    Ok(MenuStep::Done)
                }
            },
            Err(error) => Err(error),
        }
    }

    /// Goes on with what was picked.
    pub fn picked(&self, label: Option<String>) -> (r: MenuStep)
        ensures
            r@ == ask_picked(self.entries(), text_of(label)),
    {
        match label {
            None => MenuStep::Done,
            Some(label) => match find_label(&self.entries, &label) {
                None => MenuStep::Done,
                Some(i) => {
                    let node: &MenuNode = &self.entries[i];
                    if node.is_submenu {
                        MenuStep::Fetch(Some(entry_id(node.id)))
                    } else {
                        MenuStep::Activate(entry_id(node.id))
                    }
                },
            },
        }
    }

    /// How the walk came out, where `told` is how its activation went, if it had one.
    pub fn finish<E>(self, told: Option<Result<(), E>>) -> (r: Result<(), E>)
        ensures
            r == walk_result(told),
    {
        match told {
            Some(result) => result,
            None => Ok(()),
        }
    }
}

/// Only an entry that is offered is ever fetched or activated, and only when it is picked by
/// its label: a submenu is fetched, any other entry activated.
pub proof fn only_offered_entries_are_used(entries: Seq<MenuNode>, label: Option<Seq<char>>)
    ensures
        match ask_picked(entries, label) {
            Ask::Fetch(Some(id)) => exists|i: int|
                0 <= i < entries.len() && #[trigger] answers_to(
                    entries[i],
                    label->Some_0,
                ) && entries[i].is_submenu && id == as_unsigned(entries[i].id),
            Ask::Activate(id) => exists|i: int|
                0 <= i < entries.len() && #[trigger] answers_to(
                    entries[i],
                    label->Some_0,
                ) && !entries[i].is_submenu && id == as_unsigned(entries[i].id),
            Ask::Done => true,
            _ => false,
        },
        ask_picked(entries, label) is Done ==> label is None || first_labelled(
            entries,
            label->Some_0,
        ) is None,
{
    if let Some(text) = label {
        first_labelled_is_first(entries, text);
    }
}

/// A round of a walk: the entries that were fetched, or why they could not be had, and what was
/// then picked, if they were shown.
pub struct Round<E> {
    pub fetched: Result<Seq<MenuNode>, E>,
    pub label: Option<Seq<char>>,
}

/// A walk: what it asks for, and how it came out, `None` where it waits for more.
pub struct Walk<E> {
    pub asks: Seq<Ask>,
    pub result: Option<Result<(), E>>,
}

/// The walk from `ask` on, when its rounds bring this, as far as they are asked for, and its
/// activation, if it asks for one, goes like this.
pub open spec fn walk_from<E>(ask: Ask, rounds: Seq<Round<E>>, activated: Result<(), E>) -> Walk<E>
    decreases rounds.len(),
{
    match ask {
        Ask::Done => Walk { asks: seq![ask], result: Some(walk_result(None)) },
        Ask::Activate(_) => Walk { asks: seq![ask], result: Some(walk_result(Some(activated))) },
        Ask::Show(_, _) => Walk { asks: seq![ask], result: None },
        Ask::Fetch(_) => if rounds.len() == 0 {
            Walk { asks: seq![ask], result: None }
        } else {
            match rounds[0].fetched {
                Err(error) => Walk { asks: seq![ask], result: Some(Err(error)) },
                Ok(entries) => if ask_menu(entries) is Show {
                    let rest = walk_from(
                        ask_picked(entries, rounds[0].label),
                        rounds.drop_first(),
                        activated,
                    );
                    Walk { asks: seq![ask, ask_menu(entries)] + rest.asks, result: rest.result }
                } else {
                    Walk { asks: seq![ask, ask_menu(entries)], result: Some(walk_result(None)) }
                },
            }
        },
    }
}

/// The whole walk, when its rounds bring this and its activation, if it asks for one, goes like
/// this.
pub open spec fn whole_walk<E>(rounds: Seq<Round<E>>, activated: Result<(), E>) -> Walk<E> {
    walk_from(Ask::Fetch(None), rounds, activated)
}

/// All that a walk asks for but the last is to fetch and to show, and every fetch but the last
/// succeeds. The last is what the pick of its round leads to, or that there is nothing to show;
/// and it decides how the walk comes out.
proof fn how_walks_end<E>(ask: Ask, rounds: Seq<Round<E>>, activated: Result<(), E>)
    ensures
        ({
            let asks = walk_from(ask, rounds, activated).asks;
            let n = asks.len() - 1;
            let k = n / 2 - 1;
            &&& 0 <= n <= 2 * rounds.len()
            &&& forall|i: int| 0 <= i < n ==> (#[trigger] asks[i]) is Fetch || asks[i] is Show
            &&& forall|j: int| 0 <= 2 * j < n ==> (#[trigger] rounds[j]).fetched is Ok
            &&& n == 0 ==> asks.last() == ask
            &&& n % 2 == 1 ==> asks.last() is Done
            &&& n > 0 && n % 2 == 0 ==> {
                &&& asks[n - 2] is Fetch
                &&& asks[n - 1] == ask_menu(rounds[k].fetched->Ok_0)
                &&& asks.last() == ask_picked(rounds[k].fetched->Ok_0, rounds[k].label)
            }
            &&& walk_from(ask, rounds, activated).result == match asks.last() {
                Ask::Done => Some(Ok(())),
                Ask::Activate(_) => Some(activated),
                Ask::Show(_, _) => None,
                Ask::Fetch(_) => if n / 2 < rounds.len() {
                    Some(Err(rounds[n / 2].fetched->Err_0))
                } else {
                    None
                },
            }
            &&& asks.last() is Fetch && n / 2 < rounds.len() ==> rounds[n / 2].fetched is Err
        }),
    decreases rounds.len(),
{
    if ask is Fetch && rounds.len() > 0 && rounds[0].fetched is Ok {
        let entries = rounds[0].fetched->Ok_0;
        if ask_menu(entries) is Show {
            let later = rounds.drop_first();
            let asks = walk_from(ask, rounds, activated).asks;
            let next = ask_picked(entries, rounds[0].label);
            let rest = walk_from(next, later, activated).asks;
            how_walks_end(next, later, activated);
            let m = rest.len() - 1;
            assert(asks.last() == rest.last());
            assert forall|i: int| 0 <= i < m + 2 implies (#[trigger] asks[i]) is Fetch
                || asks[i] is Show by {
                if i > 1 {
                    assert(asks[i] == rest[i - 2]);
                }
            }
            assert forall|j: int| 0 <= 2 * j < m + 2 implies (
            #[trigger] rounds[j]).fetched is Ok by {
                if j > 0 {
                    assert(later[j - 1] == rounds[j]);
                    assert(later[j - 1].fetched is Ok);
                }
            }
            if m > 0 && m % 2 == 0 {
                assert(asks[m] == rest[m - 2]);
                assert(asks[m + 1] == rest[m - 1]);
                assert(later[m / 2 - 1] == rounds[m / 2]);
            }
            if m / 2 < later.len() {
                assert(later[m / 2] == rounds[(m + 2) / 2]);
            }
        }
    }
}

/// In a whole walk an entry is activated at most once, and as the last step: the first entry of
/// the menu that was fetched last that is offered under the picked label, where it is no submenu.
/// Where the last pick was cancelled, or names nothing that is offered, or there was nothing to
/// offer, the walk ends well and without an activation. It fails exactly where a fetch or its
/// activation fails, with that error, and then asks for nothing more.
pub proof fn an_activation_comes_last<E>(rounds: Seq<Round<E>>, activated: Result<(), E>)
    ensures
        ({
            let walk = whole_walk(rounds, activated);
            let asks = walk.asks;
            let n = asks.len() - 1;
            let k = n / 2 - 1;
            let entries = rounds[k].fetched->Ok_0;
            let label = rounds[k].label;
            let found = first_labelled(entries, label->Some_0);
            &&& 0 <= n <= 2 * rounds.len()
            &&& forall|i: int| 0 <= i < n ==> (#[trigger] asks[i]) is Fetch || asks[i] is Show
            &&& asks.last() matches Ask::Activate(id) ==> {
                &&& n > 0 && n % 2 == 0
                &&& asks[n - 2] is Fetch
                &&& rounds[k].fetched is Ok
                &&& asks[n - 1] == ask_menu(entries)
                &&& label is Some
                &&& found is Some
                &&& !found->Some_0.is_submenu
                &&& id == as_unsigned(found->Some_0.id)
                &&& walk.result == Some(activated)
            }
            &&& n > 0 && n % 2 == 0 && (label is None || found is None) ==> asks.last() is Done
            &&& n % 2 == 1 ==> asks.last() is Done
            &&& asks.last() is Done ==> walk.result == Some(Ok::<(), E>(()))
            &&& forall|j: int|
                0 <= 2 * j <= n && j < rounds.len() && asks[2 * j] is Fetch && (
                #[trigger] rounds[j]).fetched is Err ==> n == 2 * j && walk.result == Some(
                    Err::<(), E>(rounds[j].fetched->Err_0),
                )
            &&& walk.result is Some && walk.result->Some_0 is Err <==> {
                ||| asks.last() is Activate && activated is Err
                ||| asks.last() is Fetch && n / 2 < rounds.len() && rounds[n / 2].fetched is Err
            }
        }),
{
    how_walks_end(Ask::Fetch(None), rounds, activated);
    let n = whole_walk(rounds, activated).asks.len() - 1;
    if n > 0 && n % 2 == 0 {
        assert(rounds[n / 2 - 1].fetched is Ok);
    }
}

/// Entries that were fetched are shown exactly where one of them is visible and has a label, with
/// the whole of their text; else there is nothing to do.
pub proof fn fetched_entries_are_shown(entries: Seq<MenuNode>)
    ensures
        (exists|i: int|
            0 <= i < entries.len() && (#[trigger] entries[i]).visible && entries[i].label@.len()
                > 0) ==> ask_menu(entries) == Ask::Show(rofi_command(), menu_text(entries)),
        (forall|i: int|
            0 <= i < entries.len() ==> !(#[trigger] entries[i]).visible || entries[i].label@.len()
                == 0) ==> ask_menu(entries) == Ask::Done,
{
    what_is_offered(entries);
}

/// Picking the label of a visible entry, the first that has it, has the entries below it fetched
/// where it is a submenu, and has it activated where it is not, by its id in either case.
/// Cancelling, and picking what no visible entry is called, ends the walk.
pub proof fn what_a_pick_asks_for(entries: Seq<MenuNode>, label: Seq<char>, i: int)
    ensures
        0 <= i < entries.len() && label.len() > 0 && entries[i].visible && entries[i].label@
            == label && (forall|j: int|
            0 <= j < i ==> !(#[trigger] entries[j]).visible || entries[j].label@ != label) ==> {
            &&& entries[i].is_submenu ==> ask_picked(entries, Some(label)) == Ask::Fetch(
                Some(entries[i].id as u32),
            )
            &&& !entries[i].is_submenu ==> ask_picked(entries, Some(label)) == Ask::Activate(
                entries[i].id as u32,
            )
        },
        label.len() == 0 || (forall|j: int|
            0 <= j < entries.len() ==> !(#[trigger] entries[j]).visible || entries[j].label@
                != label) ==> ask_picked(entries, Some(label)) == Ask::Done,
        ask_picked(entries, None) == Ask::Done,
{
    a_label_stands_for_the_first_visible_entry(entries, label, i);
    if 0 <= i < entries.len() {
        let id = entries[i].id;
        assert(id >= 0i32 ==> (id as u32) as int == id as int) by (bit_vector);
        assert(id < 0i32 ==> (id as u32) as int == id as int + 0x1_0000_0000int) by (bit_vector);
    }
}

/// An id that is handed on as a `u32` is one, and the same up to whole turns of 32 bits.
pub proof fn unsigned_keeps_the_bits(n: i32)
    ensures
        0 <= as_unsigned(n) <= u32::MAX,
        as_unsigned(n) == n || as_unsigned(n) == n + 0x1_0000_0000,
{
}

/// A step says what it holds.
pub proof fn menu_steps_say_what_they_hold(
    launch: Launch,
    input: String,
    submenu: Option<u32>,
    entry: u32,
)
    ensures
        (MenuStep::Show { launch, input })@ == Ask::Show(launch@, input@),
        MenuStep::Fetch(submenu)@ == Ask::Fetch(submenu),
        MenuStep::Activate(entry)@ == Ask::Activate(entry),
        MenuStep::Done@ == Ask::Done,
{
}

} // verus!
