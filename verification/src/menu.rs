//! Menus of tray items, as they are offered in a menu program and picked from by label.

use vstd::prelude::*;

use vstd::utf8::{decode_utf8, valid_utf8};

use crate::text::{
    cut_line_end, line_break, line_end_is_all_that_goes, split_words, trim, trimmed,
    trimmed_drops_padding, trimmed_keeps_solid_ends, trimming_leaves_the_solid_stretch, white_space,
    without_line_end, words,
};

verus! {

/// An entry of a menu, with the entries below it.
#[derive(Debug)]
pub struct MenuNode {
    pub id: i32,
    pub label: String,
    pub enabled: bool,
    pub visible: bool,
    pub is_submenu: bool,
    pub children: Vec<MenuNode>,
}

/// How many levels a menu has.
pub open spec fn depth(nodes: Seq<MenuNode>) -> nat
    decreases nodes,
{
    if nodes.len() == 0 {
        0
    } else {
        let below = 1 + depth(nodes.last().children@);
        let others = depth(nodes.drop_last());
        if below > others {
            below as nat
        } else {
            others
        }
    }
}

/// The menu below an entry has fewer levels than the menu that the entry is in.
pub proof fn submenu_is_less_deep(nodes: Seq<MenuNode>, i: int)
    requires
        0 <= i < nodes.len(),
    ensures
        depth(nodes[i].children@) < depth(nodes),
    decreases nodes.len(),
{
    if i < nodes.len() - 1 {
        submenu_is_less_deep(nodes.drop_last(), i);
        assert(nodes.drop_last()[i] == nodes[i]);
    }
}

/// Whether an entry is offered: it is visible and not a mere separator.
pub open spec fn shown(node: MenuNode) -> bool {
    node.visible && node.label@.len() > 0
}

/// Whether an entry is offered under this label.
pub open spec fn answers_to(node: MenuNode, label: Seq<char>) -> bool {
    shown(node) && node.label@ == label
}

/// The line that offers an entry: its label, in brackets where the entry is disabled.
pub open spec fn line(node: MenuNode) -> Seq<char> {
    if node.enabled {
        node.label@
    } else {
        "("@ + node.label@ + ")"@
    }
}

/// The text that offers a menu: the lines of the entries that are shown, each with its end.
pub open spec fn menu_text(nodes: Seq<MenuNode>) -> Seq<char>
    decreases nodes.len(),
{
    if nodes.len() == 0 {
        seq![]
    } else if shown(nodes.last()) {
        menu_text(nodes.drop_last()) + line(nodes.last()) + "\n"@
    } else {
        menu_text(nodes.drop_last())
    }
}

/// Whether a menu has an entry to offer.
pub open spec fn offers_something(nodes: Seq<MenuNode>) -> bool {
    exists|i: int| 0 <= i < nodes.len() && #[trigger] shown(nodes[i])
}

/// The first entry that is offered under this label.
pub open spec fn first_labelled(nodes: Seq<MenuNode>, label: Seq<char>) -> Option<MenuNode>
    decreases nodes.len(),
{
    if nodes.len() == 0 {
        None
    } else if answers_to(nodes[0], label) {
        Some(nodes[0])
    } else {
        first_labelled(nodes.drop_first(), label)
    }
}

/// `first_labelled` is the entry with that label that has none before it.
pub proof fn first_labelled_is_first(nodes: Seq<MenuNode>, label: Seq<char>)
    ensures
        match first_labelled(nodes, label) {
            Some(node) => exists|i: int|
                0 <= i < nodes.len() && node == nodes[i] && #[trigger] answers_to(nodes[i], label)
                    && (forall|j: int| 0 <= j < i ==> !#[trigger] answers_to(nodes[j], label)),
            None => forall|i: int|
                0 <= i < nodes.len() ==> !#[trigger] answers_to(nodes[i], label),
        },
    decreases nodes.len(),
{
    if nodes.len() > 0 {
        if answers_to(nodes[0], label) {
        } else {
            let rest = nodes.drop_first();
            first_labelled_is_first(rest, label);
            match first_labelled(rest, label) {
                Some(node) => {
                    let i = choose|i: int|
                        0 <= i < rest.len() && node == rest[i] && #[trigger] answers_to(
                            rest[i],
                            label,
                        ) && (forall|j: int| 0 <= j < i ==> !#[trigger] answers_to(rest[j], label));
                    assert(answers_to(nodes[i + 1], label));
                    assert forall|j: int| 0 <= j < i + 1 implies !#[trigger] answers_to(
                        nodes[j],
                        label,
                    ) by {
                        if j > 0 {
                            assert(rest[j - 1] == nodes[j]);
                            assert(!answers_to(rest[j - 1], label));
                        }
                    }
                },
                None => {
                    assert forall|i: int| 0 <= i < nodes.len() implies !#[trigger] answers_to(
                        nodes[i],
                        label,
                    ) by {
                        if i > 0 {
                            assert(rest[i - 1] == nodes[i]);
                            assert(!answers_to(rest[i - 1], label));
                        }
                    }
                },
            }
        }
    }
}

/// The entry at `i` is the first one with that label.
proof fn first_labelled_at(nodes: Seq<MenuNode>, label: Seq<char>, i: int)
    requires
        0 <= i < nodes.len(),
        answers_to(nodes[i], label),
        forall|j: int| 0 <= j < i ==> !#[trigger] answers_to(nodes[j], label),
    ensures
        first_labelled(nodes, label) == Some(nodes[i]),
    decreases nodes.len(),
{
    first_labelled_is_first(nodes, label);
    let node = first_labelled(nodes, label);
    if node is Some {
        let k = choose|k: int|
            0 <= k < nodes.len() && node == Some(nodes[k]) && #[trigger] answers_to(nodes[k], label)
                && (forall|j: int| 0 <= j < k ==> !#[trigger] answers_to(nodes[j], label));
        assert(i == k);
    }
}

/// The text of a label, if there is one.
pub open spec fn text_of(label: Option<String>) -> Option<Seq<char>> {
    match label {
        Some(label) => Some(label@),
        None => None,
    }
}

/// What a menu program's output says was picked among these entries: nothing where it is blank;
/// the label that it holds up to the end of the line, where an entry is offered under that; and
/// else its text without the white space around it.
pub open spec fn picked(nodes: Seq<MenuNode>, output: Seq<char>) -> Option<Seq<char>> {
    if trimmed(output).len() == 0 {
        None
    } else if first_labelled(nodes, without_line_end(output)) is Some {
        Some(without_line_end(output))
    } else {
        Some(trimmed(output))
    }
}

/// How a walk through a menu came out, where `told` is how carrying out its choice went, if one
/// was made.
pub open spec fn walk_result<E>(told: Option<Result<(), E>>) -> Result<(), E> {
    match told {
        Some(result) => result,
        None => Ok(()),
    }
}

/// Whether an entry is offered.
pub fn is_shown(node: &MenuNode) -> (r: bool)
    ensures
        r == shown(*node),
{
    node.visible && !node.label.as_str().is_empty()
}

/// Whether a menu has an entry to offer.
pub fn has_entries(nodes: &Vec<MenuNode>) -> (r: bool)
    ensures
        r == offers_something(nodes@),
{
    for i in 0..nodes.len()
        invariant
            forall|j: int| 0 <= j < i ==> !#[trigger] shown(nodes@[j]),
    {
        if is_shown(&nodes[i]) {
            assert(shown(nodes@[i as int]));
            return true;
        }
    }
    false
}

/// The line that offers an entry.
pub fn entry_line(node: &MenuNode) -> (r: String)
    ensures
        r@ == line(*node),
{
    if node.enabled {
        node.label.clone()
    } else {
        "(".to_owned().concat(node.label.as_str()).concat(")")
    }
}

/// The text that offers a menu.
pub fn menu_input(nodes: &Vec<MenuNode>) -> (r: String)
    ensures
        r@ == menu_text(nodes@),
{
    let mut r: String = String::new();
    for i in 0..nodes.len()
        invariant
            r@ == menu_text(nodes@.take(i as int)),
    {
        assert(nodes@.take(i + 1).drop_last() =~= nodes@.take(i as int));
        if is_shown(&nodes[i]) {
            r.append(entry_line(&nodes[i]).as_str());
            r.append("\n");
        }
    }
    assert(nodes@.take(nodes@.len() as int) =~= nodes@);
    r
}

/// The position of the first entry that is offered under this label.
pub fn find_label(nodes: &Vec<MenuNode>, label: &String) -> (r: Option<usize>)
    ensures
        match r {
            Some(i) => i < nodes@.len() && first_labelled(nodes@, label@) == Some(nodes@[i as int]),
            None => first_labelled(nodes@, label@) is None,
        },
{
    for i in 0..nodes.len()
        invariant
            forall|j: int| 0 <= j < i ==> !#[trigger] answers_to(nodes@[j], label@),
    {
        if is_shown(&nodes[i]) && nodes[i].label == *label {
            proof {
                first_labelled_at(nodes@, label@, i as int);
            }
            return Some(i);
        }
    }
    proof {
        first_labelled_is_first(nodes@, label@);
    }
    None
}

/// What a menu program's output says was picked among the entries that it offered.
pub fn read_pick(nodes: &Vec<MenuNode>, output: &str) -> (r: Option<String>)
    ensures
        text_of(r) == picked(nodes@, output@),
{
    let text: String = trim(output);
    if text.as_str().is_empty() {
        return None;
    }
    let line: String = cut_line_end(output);
    match find_label(nodes, &line) {
        Some(_) => Some(line),
        None => Some(text),
    }
}

/// A program to run and its arguments.
#[derive(Debug)]
pub struct Launch {
    pub program: String,
    pub args: Vec<String>,
}

impl View for Launch {
    type V = Seq<Seq<char>>;

    /// The program, followed by the arguments.
    open spec fn view(&self) -> Seq<Seq<char>> {
        seq![self.program@] + self.args@.map_values(|a: String| a@)
    }
}

/// A command as a program with arguments. A command without a word runs nothing.
pub fn parse_command(command: &str) -> (r: Option<Launch>)
    ensures
        match r {
            Some(launch) => launch@ == words(command@),
            None => words(command@).len() == 0,
        },
{
    let mut args: Vec<String> = split_words(command);
    let ghost all = args@.map_values(|a: String| a@);
    if args.len() == 0 {
        assert(all.len() == 0);
        return None;
    }
    let program: String = args.remove(0);
    let launch = Launch { program, args };
    assert(launch@ =~= all);
    Some(launch)
}

/// The text that std reads bytes as when it has to put up with bytes that are not UTF-8.
pub uninterp spec fn lossy_text(bytes: Seq<u8>) -> Seq<char>;

/// `String::from_utf8_lossy` of std: a text that depends on the bytes alone and is, where they
/// are UTF-8, the text that they encode. What stands in place of other bytes is left unsaid.
#[verifier::external_body]
fn read_lossy(bytes: &[u8]) -> (r: String)
    ensures
        r@ == lossy_text(bytes@),
        valid_utf8(bytes@) ==> r@ == decode_utf8(bytes@),
{
    String::from_utf8_lossy(bytes).into_owned()
}

/// What was picked in a menu program that offered these entries and has ended: nothing where it
/// failed, as it does when the user cancels, and else what its output says.
pub fn read_output(nodes: &Vec<MenuNode>, success: bool, output: &[u8]) -> (r: Option<String>)
    ensures
        text_of(r) == (if success {
            picked(nodes@, lossy_text(output@))
        } else {
            None
        }),
        valid_utf8(output@) ==> lossy_text(output@) == decode_utf8(output@),
{
    let text: String = read_lossy(output);
    if success {
        read_pick(nodes, text.as_str())
    } else {
        None
    }
}

/// What was picked in a menu program that offered these entries and has ended, where `line` is
/// the first line of its output, `None` if that could not be read.
pub fn read_line(nodes: &Vec<MenuNode>, success: bool, line: Option<&str>) -> (r: Option<String>)
    ensures
        text_of(r) == (match line {
            Some(line) => if success {
                picked(nodes@, line@)
            } else {
                None
            },
            None => None,
        }),
{
    match line {
        Some(line) => if success {
            read_pick(nodes, line)
        } else {
            None
        },
        None => None,
    }
}

/// Picking the line of an enabled entry finds that entry, where its label is not blank and does
/// not end in a line break, and no entry offered before it has the same label.
pub proof fn picking_a_line_finds_its_entry(nodes: Seq<MenuNode>, i: int)
    requires
        0 <= i < nodes.len(),
        shown(nodes[i]),
        nodes[i].enabled,
        trimmed(nodes[i].label@).len() > 0,
        !line_break(nodes[i].label@.last()),
        forall|j: int| 0 <= j < i ==> !#[trigger] answers_to(nodes[j], nodes[i].label@),
    ensures
        picked(nodes, line(nodes[i]).push('\n')) == Some(nodes[i].label@),
        first_labelled(nodes, nodes[i].label@) == Some(nodes[i]),
{
    let label = nodes[i].label@;
    let none = Seq::<char>::empty();
    trimmed_drops_padding(none, label, seq!['\n']);
    assert(none + label + seq!['\n'] =~= label.push('\n'));
    line_end_is_all_that_goes(label);
    assert(answers_to(nodes[i], label));
    first_labelled_at(nodes, label, i);
}

/// White space that a menu program puts around a label does not hide the entry: where no entry
/// is offered under the padded label, the entry with the label itself is found.
pub proof fn padding_is_forgiven(
    nodes: Seq<MenuNode>,
    before: Seq<char>,
    label: Seq<char>,
    after: Seq<char>,
)
    requires
        label.len() > 0,
        !white_space(label[0]),
        !white_space(label.last()),
        forall|i: int| 0 <= i < before.len() ==> white_space(#[trigger] before[i]),
        forall|i: int| 0 <= i < after.len() ==> white_space(#[trigger] after[i]),
        first_labelled(nodes, without_line_end(before + label + after)) is None,
    ensures
        picked(nodes, before + label + after) == Some(label),
{
    trimmed_drops_padding(before, label, after);
    trimmed_keeps_solid_ends(label);
}

/// Picking the line of a disabled entry finds nothing, unless some entry is called just
/// that, brackets included.
pub proof fn picking_a_disabled_line_finds_nothing(nodes: Seq<MenuNode>, i: int)
    requires
        0 <= i < nodes.len(),
        !nodes[i].enabled,
        forall|j: int| 0 <= j < nodes.len() ==> !#[trigger] answers_to(nodes[j], line(nodes[i])),
    ensures
        picked(nodes, line(nodes[i]).push('\n')) == Some(line(nodes[i])),
        first_labelled(nodes, line(nodes[i])) is None,
{
    reveal_strlit("(");
    reveal_strlit(")");
    let text = line(nodes[i]);
    assert(text[0] == '(');
    assert(text.last() == ')');
    let none = Seq::<char>::empty();
    trimmed_drops_padding(none, text, seq!['\n']);
    assert(none + text + seq!['\n'] =~= text.push('\n'));
    trimmed_keeps_solid_ends(text);
    line_end_is_all_that_goes(text);
    first_labelled_is_first(nodes, text);
}

/// A menu is offered as text exactly where it has an entry to offer.
pub proof fn text_is_for_entries(nodes: Seq<MenuNode>)
    ensures
        menu_text(nodes).len() > 0 <==> offers_something(nodes),
    decreases nodes.len(),
{
    reveal_strlit("\n");
    if nodes.len() > 0 {
        let rest = nodes.drop_last();
        text_is_for_entries(rest);
        if shown(nodes.last()) {
            assert(shown(nodes[nodes.len() - 1]));
        } else if offers_something(nodes) {
            let i = choose|i: int| 0 <= i < nodes.len() && #[trigger] shown(nodes[i]);
            assert(shown(rest[i]));
        } else if offers_something(rest) {
            let i = choose|i: int| 0 <= i < rest.len() && #[trigger] shown(rest[i]);
            assert(shown(nodes[i]));
        }
    }
}

/// The text of a menu is made entry by entry: that of two parts, one after the other, is the one
/// text after the other, and no entries have no text.
pub proof fn text_is_made_entry_by_entry(a: Seq<MenuNode>, b: Seq<MenuNode>)
    ensures
        menu_text(a + b) == menu_text(a) + menu_text(b),
        menu_text(Seq::<MenuNode>::empty()).len() == 0,
    decreases b.len(),
{
    if b.len() == 0 {
        assert(a + b =~= a);
        assert(menu_text(a) + menu_text(b) =~= menu_text(a));
    } else {
        assert((a + b).drop_last() =~= a + b.drop_last());
        assert((a + b).last() == b.last());
        text_is_made_entry_by_entry(a, b.drop_last());
        assert(menu_text(a + b) =~= menu_text(a) + menu_text(b));
    }
}

/// The text of one entry is its label on a line, in brackets where it is disabled, and nothing
/// where it is invisible or has no label.
pub proof fn text_of_one_entry(node: MenuNode)
    ensures
        !node.visible || node.label@.len() == 0 ==> menu_text(seq![node]).len() == 0,
        node.visible && node.label@.len() > 0 && node.enabled ==> menu_text(seq![node])
            == node.label@.push('\n'),
        node.visible && node.label@.len() > 0 && !node.enabled ==> menu_text(seq![node])
            == seq!['('] + node.label@ + seq![')', '\n'],
{
    reveal_strlit("(");
    reveal_strlit(")");
    reveal_strlit("\n");
    let one = seq![node];
    assert(one.drop_last() =~= Seq::<MenuNode>::empty());
    assert(menu_text(one.drop_last()).len() == 0);
    if node.visible && node.label@.len() > 0 {
        if node.enabled {
            assert(menu_text(one) =~= node.label@.push('\n'));
        } else {
            assert(menu_text(one) =~= seq!['('] + node.label@ + seq![')', '\n']);
        }
    }
}

/// The line of an entry is its label, in brackets where it is disabled.
pub proof fn lines_are_labels(node: MenuNode)
    ensures
        node.enabled ==> line(node) == node.label@,
        !node.enabled ==> line(node) == seq!['('] + node.label@ + seq![')'],
{
    reveal_strlit("(");
    reveal_strlit(")");
    assert(!node.enabled ==> line(node) =~= seq!['('] + node.label@ + seq![')']);
}

/// A menu has something to offer exactly where an entry is visible and has a label.
pub proof fn what_is_offered(nodes: Seq<MenuNode>)
    ensures
        offers_something(nodes) <==> exists|i: int|
            0 <= i < nodes.len() && (#[trigger] nodes[i]).visible && nodes[i].label@.len() > 0,
{
    if exists|i: int|
        0 <= i < nodes.len() && (#[trigger] nodes[i]).visible && nodes[i].label@.len() > 0 {
        let i = choose|i: int|
            0 <= i < nodes.len() && (#[trigger] nodes[i]).visible && nodes[i].label@.len() > 0;
        assert(shown(nodes[i]));
    }
}

/// A label stands for the first visible entry that has it, whatever stands after that and
/// whether or not it is enabled; a label that no visible entry has stands for none, and so does
/// no label.
pub proof fn a_label_stands_for_the_first_visible_entry(
    nodes: Seq<MenuNode>,
    label: Seq<char>,
    i: int,
)
    ensures
        0 <= i < nodes.len() && label.len() > 0 && nodes[i].visible && nodes[i].label@ == label && (
        forall|j: int| 0 <= j < i ==> !(#[trigger] nodes[j]).visible || nodes[j].label@ != label)
            ==> first_labelled(nodes, label) == Some(nodes[i]),
        (forall|j: int|
            0 <= j < nodes.len() ==> !(#[trigger] nodes[j]).visible || nodes[j].label@ != label)
            ==> first_labelled(nodes, label) is None,
        label.len() == 0 ==> first_labelled(nodes, label) is None,
{
    first_labelled_is_first(nodes, label);
    if 0 <= i < nodes.len() && label.len() > 0 && nodes[i].visible && nodes[i].label@ == label && (
    forall|j: int| 0 <= j < i ==> !(#[trigger] nodes[j]).visible || nodes[j].label@ != label) {
        assert forall|j: int| 0 <= j < i implies !#[trigger] answers_to(nodes[j], label) by {
            assert(!nodes[j].visible || nodes[j].label@ != label);
        }
        first_labelled_at(nodes, label, i);
    }
}

/// Output says that nothing was picked exactly where it is all white space. Else it names the
/// visible entry whose label is just the output up to the line end, if there is one, and
/// otherwise what is left of it without the white space around.
pub proof fn what_output_says(nodes: Seq<MenuNode>, output: Seq<char>)
    ensures
        picked(nodes, output) is None <==> forall|i: int|
            0 <= i < output.len() ==> white_space(#[trigger] output[i]),
        picked(nodes, output) is Some && (exists|i: int|
            0 <= i < nodes.len() && (#[trigger] nodes[i]).visible && nodes[i].label@.len() > 0
                && nodes[i].label@ == without_line_end(output)) ==> picked(nodes, output) == Some(
            without_line_end(output),
        ),
        picked(nodes, output) is Some && !(exists|i: int|
            0 <= i < nodes.len() && (#[trigger] nodes[i]).visible && nodes[i].label@.len() > 0
                && nodes[i].label@ == without_line_end(output)) ==> picked(nodes, output) == Some(
            trimmed(output),
        ),
{
    let line = without_line_end(output);
    let (a, b) = trimming_leaves_the_solid_stretch(output);
    if a == b {
        assert(trimmed(output).len() == 0);
    } else {
        assert(!white_space(output[a]));
        assert(trimmed(output).len() == b - a);
    }
    first_labelled_is_first(nodes, line);
    if exists|i: int|
        0 <= i < nodes.len() && (#[trigger] nodes[i]).visible && nodes[i].label@.len() > 0
            && nodes[i].label@ == line {
        let i = choose|i: int|
            0 <= i < nodes.len() && (#[trigger] nodes[i]).visible && nodes[i].label@.len() > 0
                && nodes[i].label@ == line;
        assert(answers_to(nodes[i], line));
    }
}

/// A program to run stands for its name and its arguments in their order, and a label for its
/// text.
pub proof fn launches_say_what_they_hold(launch: Launch, label: String, i: int)
    ensures
        launch@.len() == launch.args@.len() + 1,
        launch@[0] == launch.program@,
        0 <= i < launch.args@.len() ==> launch@[i + 1] == launch.args@[i]@,
        text_of(Some(label)) == Some(label@),
        text_of(None) is None,
{
}

/// A walk comes out as carrying out its choice does, and well where there was no choice.
pub proof fn walks_come_out_as_their_choice_does<E>(result: Result<(), E>)
    ensures
        walk_result(Some(result)) == result,
        walk_result::<E>(None) is Ok,
{
}

} // verus!
